//! The protocol codec: conversion between typed records and JSON values.
//!
//! Every record kind has an encoder, a decoder, and a round-trip lemma:
//! decoding what was encoded yields the record unchanged.  Decoders are
//! lenient in the sense the protocol asks for: object members that the
//! record does not know are ignored.

use vstd::prelude::*;
use vstd::string::StrSliceExecFns;
use vstd::string::StringExecFns;
use crate::json::{Json, JsonVal, jview_members};
use crate::types::{RequestId, RequestIdV, ErrorData, ErrorDataV, Request, RequestV, Response, ResponseV, ErrorResponse, ErrorResponseV, Notification, NotificationV, Implementation, ImplementationV, ToolsCapability, ToolsCapabilityV, ClientCapabilities, ClientCapabilitiesV, ServerCapabilities, ServerCapabilitiesV, InitializeRequestParams, InitializeRequestParamsV, InitializeResult, InitializeResultV, CallToolParams, CallToolParamsV, ReadResourceParams, ReadResourceParamsV, GetPromptParams, GetPromptParamsV, ListToolsChangedParams, ToolAnnotations, ToolAnnotationsV, Tool, ToolV, ListToolsResult, ListToolsResultV, TextResourceContents, TextResourceContentsV, BlobResourceContents, BlobResourceContentsV, ResourceContents, ResourceContentsV, Content, ContentV, CallToolResult, CallToolResultV, Resource, ResourceV, ReadResourceResult, ReadResourceResultV, PromptArgument, PromptArgumentV, Prompt, PromptV, PromptMessage, PromptMessageV, ListPromptsResult, ListPromptsResultV, GetPromptResult, GetPromptResultV, JSONRPCResponse, JSONRPCResponseV};

verus! {

// --- Object member lookup ---

/// The value of the first member with the given key, if any.
pub open spec fn lookup(ms: Seq<(Seq<char>, JsonVal)>, k: Seq<char>) -> Option<JsonVal>
    decreases ms,
{
    if ms.len() == 0 {
        None
    } else if ms[0].0 == k {
        Some(ms[0].1)
    } else {
        lookup(ms.drop_first(), k)
    }
}

/// String equality by characters.
pub fn str_eq(a: &str, b: &str) -> (r: bool)
    ensures
        r == (a@ == b@),
{
    let na = a.unicode_len();
    let nb = b.unicode_len();
    if na != nb {
        proof {
            assert(a@ != b@);
        }
        return false;
    }
    let mut i: usize = 0;
    while i < na
        invariant
            na == a@.len(),
            na == b@.len(),
            i <= na,
            forall|k: int| 0 <= k < i ==> a@[k] == b@[k],
        decreases na - i,
    {
        if a.get_char(i) != b.get_char(i) {
            proof {
                assert(a@[i as int] != b@[i as int]);
            }
            return false;
        }
        i = i + 1;
    }
    proof {
        assert(a@ =~= b@);
    }
    true
}

/// Looks a key up among an object's members: the first match, as `lookup`.
pub fn obj_get<'a>(members: &'a Vec<(String, Json)>, key: &str) -> (r: Option<&'a Json>)
    ensures
        match r {
            Some(j) => lookup(jview_members(members@), key@) == Some(j.deep_view()),
            None => lookup(jview_members(members@), key@) is None,
        },
{
    let n = members.len();
    proof {
        crate::json::lemma_jview_members_len(members@);
        assert(jview_members(members@).skip(0) =~= jview_members(members@));
    }
    let mut i: usize = 0;
    while i < n
        invariant
            n == members@.len(),
            i <= n,
            lookup(jview_members(members@), key@) == lookup(
                jview_members(members@).skip(i as int),
                key@,
            ),
            jview_members(members@).len() == n,
        decreases n - i,
    {
        proof {
            crate::json::lemma_jview_members_index(members@, i as int);
        }
        if str_eq(members[i].0.as_str(), key) {
            proof {
                let ms = jview_members(members@).skip(i as int);
                assert(ms[0] == jview_members(members@)[i as int]);
                assert(lookup(ms, key@) == Some(ms[0].1));
            }
            return Some(&members[i].1);
        }
        proof {
            let ms = jview_members(members@).skip(i as int);
            assert(ms[0] == jview_members(members@)[i as int]);
            assert(ms.drop_first() =~= jview_members(members@).skip(i + 1));
        }
        i = i + 1;
    }
    proof {
        assert(jview_members(members@).skip(n as int) =~= Seq::<(Seq<char>, JsonVal)>::empty());
    }
    None
}

/// Appends one member to an object under construction.
pub fn obj_push(m: &mut Vec<(String, Json)>, key: &str, v: Json)
    ensures
        jview_members(final(m)@) == jview_members(old(m)@).push((key@, v.deep_view())),
{
    let ghost prev = m@;
    m.push((key.to_owned(), v));
    proof {
        assert(m@.drop_last() =~= prev);
    }
}

/// Looking a key up after appending a member: the earlier members win;
/// the new member answers only where the key was absent.
pub broadcast proof fn lemma_lookup_push(
    s: Seq<(Seq<char>, JsonVal)>,
    p: (Seq<char>, JsonVal),
    k: Seq<char>,
)
    ensures
        #[trigger] lookup(s.push(p), k) == (match lookup(s, k) {
            Some(v) => Some(v),
            None => if p.0 == k {
                Some(p.1)
            } else {
                None
            },
        }),
    decreases s,
{
    if s.len() == 0 {
        assert(s.push(p)[0] == p);
        assert(s.push(p).drop_first() =~= Seq::<(Seq<char>, JsonVal)>::empty());
    } else {
        assert(s.push(p)[0] == s[0]);
        assert(s.push(p).drop_first() =~= s.drop_first().push(p));
        lemma_lookup_push(s.drop_first(), p, k);
    }
}

// --- Request identifiers ---

pub open spec fn enc_id(id: RequestIdV) -> JsonVal {
    match id {
        RequestIdV::Num(n) => JsonVal::Int(n),
        RequestIdV::Str(s) => JsonVal::Str(s),
    }
}

pub open spec fn dec_id(j: JsonVal) -> Option<RequestIdV> {
    match j {
        JsonVal::Int(n) => Some(RequestIdV::Num(n)),
        JsonVal::Str(s) => Some(RequestIdV::Str(s)),
        _ => None,
    }
}

pub fn encode_id(id: &RequestId) -> (r: Json)
    ensures
        r.deep_view() == enc_id(id.deep_view()),
{
    match id {
        RequestId::Num(n) => Json::Int(*n),
        RequestId::Str(s) => Json::Str(s.clone()),
    }
}

pub fn decode_id(j: &Json) -> (r: Option<RequestId>)
    ensures
        r.deep_view() == dec_id(j.deep_view()),
{
    match j {
        Json::Int(n) => Some(RequestId::Num(*n)),
        Json::Str(s) => Some(RequestId::Str(s.clone())),
        _ => None,
    }
}

/// An identifier survives the trip onto the wire and back.
pub broadcast proof fn lemma_id_round_trip(id: RequestIdV)
    ensures
        #[trigger] dec_id(enc_id(id)) == Some(id),
{
}

// --- Error payloads ---

pub open spec fn enc_error_data(e: ErrorDataV) -> JsonVal {
    JsonVal::Obj(
        seq![("code"@, JsonVal::Int(e.code)), ("message"@, JsonVal::Str(e.message))],
    )
}

pub open spec fn dec_error_data(j: JsonVal) -> Option<ErrorDataV> {
    match j {
        JsonVal::Obj(ms) => match (lookup(ms, "code"@), lookup(ms, "message"@)) {
            (Some(JsonVal::Int(c)), Some(JsonVal::Str(m))) => {
                if i32::MIN <= c <= i32::MAX {
                    Some(ErrorDataV { code: c, message: m })
                } else {
                    None
                }
            },
            _ => None,
        },
        _ => None,
    }
}

pub fn encode_error_data(e: &ErrorData) -> (r: Json)
    ensures
        r.deep_view() == enc_error_data(e.deep_view()),
{
    let mut m: Vec<(String, Json)> = Vec::new();
    obj_push(&mut m, "code", Json::Int(e.code as i64));
    obj_push(&mut m, "message", Json::Str(e.message.clone()));
    let r = Json::Obj(m);
    proof {
        assert(jview_members(m@) =~= enc_error_data(e.deep_view())->Obj_0);
    }
    r
}

pub fn decode_error_data(j: &Json) -> (r: Option<ErrorData>)
    ensures
        r.deep_view() == dec_error_data(j.deep_view()),
{
    let members = match j {
        Json::Obj(ms) => ms,
        _ => {
            return None;
        },
    };
    let code = match obj_get(members, "code") {
        Some(Json::Int(c)) => *c,
        _ => {
            return None;
        },
    };
    let message = match obj_get(members, "message") {
        Some(Json::Str(s)) => s.clone(),
        _ => {
            return None;
        },
    };
    if code < (i32::MIN as i64) || code > (i32::MAX as i64) {
        return None;
    }
    Some(ErrorData { code: code as i32, message })
}

/// An error payload survives the trip onto the wire and back.
pub broadcast proof fn lemma_error_data_round_trip(e: ErrorDataV)
    requires
        i32::MIN <= e.code <= i32::MAX,
    ensures
        #[trigger] dec_error_data(enc_error_data(e)) == Some(e),
{
    broadcast use vstd::string::group_string_axioms;

    reveal_strlit("code");
    reveal_strlit("message");
    let ms = enc_error_data(e)->Obj_0;
    assert("code"@.len() == 4);
    assert("message"@.len() == 7);
    assert(lookup(ms, "code"@) == Some(JsonVal::Int(e.code)));
    let tail = ms.drop_first();
    assert(tail =~= seq![("message"@, JsonVal::Str(e.message))]);
    assert(ms[0].0 != "message"@);
    assert(lookup(ms, "message"@) == lookup(tail, "message"@));
    assert(lookup(tail, "message"@) == Some(JsonVal::Str(e.message)));
}

// --- Field helpers ---

/// A required string-valued member.
pub open spec fn dec_str_field(ms: Seq<(Seq<char>, JsonVal)>, k: Seq<char>) -> Option<Seq<char>> {
    match lookup(ms, k) {
        Some(JsonVal::Str(s)) => Some(s),
        _ => None,
    }
}

/// An optional string-valued member: absence is accepted, a value of
/// another type is not.
pub open spec fn dec_opt_str_field(ms: Seq<(Seq<char>, JsonVal)>, k: Seq<char>) -> Option<
    Option<Seq<char>>,
> {
    match lookup(ms, k) {
        None => Some(None),
        Some(JsonVal::Str(s)) => Some(Some(s)),
        Some(_) => None,
    }
}

/// An optional boolean member.
pub open spec fn dec_opt_bool_field(ms: Seq<(Seq<char>, JsonVal)>, k: Seq<char>) -> Option<
    Option<bool>,
> {
    match lookup(ms, k) {
        None => Some(None),
        Some(JsonVal::Bool(b)) => Some(Some(b)),
        Some(_) => None,
    }
}

pub fn obj_get_str(members: &Vec<(String, Json)>, key: &str) -> (r: Option<String>)
    ensures
        r.deep_view() == dec_str_field(jview_members(members@), key@),
{
    match obj_get(members, key) {
        Some(Json::Str(s)) => Some(s.clone()),
        _ => None,
    }
}

pub fn obj_get_opt_str(members: &Vec<(String, Json)>, key: &str) -> (r: Option<Option<String>>)
    ensures
        r.deep_view() == dec_opt_str_field(jview_members(members@), key@),
{
    match obj_get(members, key) {
        None => Some(None),
        Some(Json::Str(s)) => Some(Some(s.clone())),
        Some(_) => None,
    }
}

pub fn obj_get_opt_bool(members: &Vec<(String, Json)>, key: &str) -> (r: Option<Option<bool>>)
    ensures
        r.deep_view() == dec_opt_bool_field(jview_members(members@), key@),
{
    match obj_get(members, key) {
        None => Some(None),
        Some(Json::Bool(b)) => Some(Some(*b)),
        Some(_) => None,
    }
}

// --- Envelopes ---

pub open spec fn enc_request(r: RequestV) -> JsonVal {
    JsonVal::Obj(
        seq![("jsonrpc"@, JsonVal::Str(r.jsonrpc))].push(("id"@, enc_id(r.id))).push(
            ("method"@, JsonVal::Str(r.method)),
        ).push(("params"@, r.params)),
    )
}

pub open spec fn dec_request(j: JsonVal) -> Option<RequestV> {
    match j {
        JsonVal::Obj(ms) => match (
            lookup(ms, "jsonrpc"@),
            lookup(ms, "id"@),
            lookup(ms, "method"@),
            lookup(ms, "params"@),
        ) {
            (Some(JsonVal::Str(ver)), Some(idj), Some(JsonVal::Str(m)), Some(p)) => match dec_id(
                idj,
            ) {
                Some(id) => Some(RequestV { jsonrpc: ver, id, method: m, params: p }),
                None => None,
            },
            _ => None,
        },
        _ => None,
    }
}

pub fn encode_request(r: &Request) -> (out: Json)
    ensures
        out.deep_view() == enc_request(r.deep_view()),
{
    let mut m: Vec<(String, Json)> = Vec::new();
    obj_push(&mut m, "jsonrpc", Json::Str(r.jsonrpc.clone()));
    obj_push(&mut m, "id", encode_id(&r.id));
    obj_push(&mut m, "method", Json::Str(r.method.clone()));
    obj_push(&mut m, "params", r.params.clone());
    let out = Json::Obj(m);
    proof {
        assert(jview_members(m@) =~= enc_request(r.deep_view())->Obj_0);
    }
    out
}

pub fn decode_request(j: &Json) -> (r: Option<Request>)
    ensures
        r.deep_view() == dec_request(j.deep_view()),
{
    let members = match j {
        Json::Obj(ms) => ms,
        _ => {
            return None;
        },
    };
    let jsonrpc = match obj_get(members, "jsonrpc") {
        Some(Json::Str(s)) => s.clone(),
        _ => {
            return None;
        },
    };
    let id = match obj_get(members, "id") {
        Some(idj) => match decode_id(idj) {
            Some(id) => id,
            None => {
                return None;
            },
        },
        None => {
            return None;
        },
    };
    let method = match obj_get(members, "method") {
        Some(Json::Str(s)) => s.clone(),
        _ => {
            return None;
        },
    };
    let params = match obj_get(members, "params") {
        Some(p) => p.clone(),
        None => {
            return None;
        },
    };
    Some(Request { jsonrpc, id, method, params })
}

/// A request survives the trip onto the wire and back.
pub broadcast proof fn lemma_request_round_trip(r: RequestV)
    ensures
        #[trigger] dec_request(enc_request(r)) == Some(r),
{
    broadcast use vstd::string::group_string_axioms;
    broadcast use lemma_lookup_push;

    reveal_strlit("jsonrpc");
    reveal_strlit("id");
    reveal_strlit("method");
    reveal_strlit("params");
    reveal_strlit("result");
    reveal_strlit("error");
    assert("jsonrpc"@.len() == 7);
    assert("id"@.len() == 2);
    assert("method"@.len() == 6);
    assert("params"@.len() == 6);
    assert("result"@.len() == 6);
    assert("error"@.len() == 5);
    assert("method"@[0] == 'm');
    assert("params"@[0] == 'p');
    assert("result"@[0] == 'r');
    let base = seq![("jsonrpc"@, JsonVal::Str(r.jsonrpc))];
    assert(lookup(base, "jsonrpc"@) == Some(JsonVal::Str(r.jsonrpc)));
    assert(lookup(base, "id"@) is None);
    assert(lookup(base, "method"@) is None);
    assert(lookup(base, "params"@) is None);
    lemma_id_round_trip(r.id);
}

pub open spec fn enc_response(r: ResponseV) -> JsonVal {
    JsonVal::Obj(
        seq![("jsonrpc"@, JsonVal::Str(r.jsonrpc))].push(("id"@, enc_id(r.id))).push(
            ("result"@, r.result),
        ),
    )
}

pub open spec fn dec_response(j: JsonVal) -> Option<ResponseV> {
    match j {
        JsonVal::Obj(ms) => match (lookup(ms, "jsonrpc"@), lookup(ms, "id"@), lookup(ms, "result"@)) {
            (Some(JsonVal::Str(ver)), Some(idj), Some(res)) => match dec_id(idj) {
                Some(id) => Some(ResponseV { jsonrpc: ver, id, result: res }),
                None => None,
            },
            _ => None,
        },
        _ => None,
    }
}

pub fn encode_response(r: &Response) -> (out: Json)
    ensures
        out.deep_view() == enc_response(r.deep_view()),
{
    let mut m: Vec<(String, Json)> = Vec::new();
    obj_push(&mut m, "jsonrpc", Json::Str(r.jsonrpc.clone()));
    obj_push(&mut m, "id", encode_id(&r.id));
    obj_push(&mut m, "result", r.result.clone());
    let out = Json::Obj(m);
    proof {
        assert(jview_members(m@) =~= enc_response(r.deep_view())->Obj_0);
    }
    out
}

pub fn decode_response(j: &Json) -> (r: Option<Response>)
    ensures
        r.deep_view() == dec_response(j.deep_view()),
{
    let members = match j {
        Json::Obj(ms) => ms,
        _ => {
            return None;
        },
    };
    let jsonrpc = match obj_get(members, "jsonrpc") {
        Some(Json::Str(s)) => s.clone(),
        _ => {
            return None;
        },
    };
    let id = match obj_get(members, "id") {
        Some(idj) => match decode_id(idj) {
            Some(id) => id,
            None => {
                return None;
            },
        },
        None => {
            return None;
        },
    };
    let result = match obj_get(members, "result") {
        Some(p) => p.clone(),
        None => {
            return None;
        },
    };
    Some(Response { jsonrpc, id, result })
}

/// A success response survives the trip onto the wire and back.
pub broadcast proof fn lemma_response_round_trip(r: ResponseV)
    ensures
        #[trigger] dec_response(enc_response(r)) == Some(r),
{
    broadcast use vstd::string::group_string_axioms;
    broadcast use lemma_lookup_push;

    reveal_strlit("jsonrpc");
    reveal_strlit("id");
    reveal_strlit("method");
    reveal_strlit("params");
    reveal_strlit("result");
    reveal_strlit("error");
    assert("jsonrpc"@.len() == 7);
    assert("id"@.len() == 2);
    assert("method"@.len() == 6);
    assert("params"@.len() == 6);
    assert("result"@.len() == 6);
    assert("error"@.len() == 5);
    assert("method"@[0] == 'm');
    assert("params"@[0] == 'p');
    assert("result"@[0] == 'r');
    let base = seq![("jsonrpc"@, JsonVal::Str(r.jsonrpc))];
    assert(lookup(base, "jsonrpc"@) == Some(JsonVal::Str(r.jsonrpc)));
    assert(lookup(base, "id"@) is None);
    assert(lookup(base, "result"@) is None);
    lemma_id_round_trip(r.id);
}

pub open spec fn enc_error_response(r: ErrorResponseV) -> JsonVal {
    JsonVal::Obj(
        seq![("jsonrpc"@, JsonVal::Str(r.jsonrpc))].push(("id"@, enc_id(r.id))).push(
            ("error"@, enc_error_data(r.error)),
        ),
    )
}

pub open spec fn dec_error_response(j: JsonVal) -> Option<ErrorResponseV> {
    match j {
        JsonVal::Obj(ms) => match (lookup(ms, "jsonrpc"@), lookup(ms, "id"@), lookup(ms, "error"@)) {
            (Some(JsonVal::Str(ver)), Some(idj), Some(ej)) => match (dec_id(idj), dec_error_data(ej)) {
                (Some(id), Some(e)) => Some(ErrorResponseV { jsonrpc: ver, id, error: e }),
                _ => None,
            },
            _ => None,
        },
        _ => None,
    }
}

pub fn encode_error_response(r: &ErrorResponse) -> (out: Json)
    ensures
        out.deep_view() == enc_error_response(r.deep_view()),
{
    let mut m: Vec<(String, Json)> = Vec::new();
    obj_push(&mut m, "jsonrpc", Json::Str(r.jsonrpc.clone()));
    obj_push(&mut m, "id", encode_id(&r.id));
    obj_push(&mut m, "error", encode_error_data(&r.error));
    let out = Json::Obj(m);
    proof {
        assert(jview_members(m@) =~= enc_error_response(r.deep_view())->Obj_0);
    }
    out
}

pub fn decode_error_response(j: &Json) -> (r: Option<ErrorResponse>)
    ensures
        r.deep_view() == dec_error_response(j.deep_view()),
{
    let members = match j {
        Json::Obj(ms) => ms,
        _ => {
            return None;
        },
    };
    let jsonrpc = match obj_get(members, "jsonrpc") {
        Some(Json::Str(s)) => s.clone(),
        _ => {
            return None;
        },
    };
    let id = match obj_get(members, "id") {
        Some(idj) => match decode_id(idj) {
            Some(id) => id,
            None => {
                return None;
            },
        },
        None => {
            return None;
        },
    };
    let error = match obj_get(members, "error") {
        Some(ej) => match decode_error_data(ej) {
            Some(e) => e,
            None => {
                return None;
            },
        },
        None => {
            return None;
        },
    };
    Some(ErrorResponse { jsonrpc, id, error })
}

/// An error response survives the trip onto the wire and back.
pub broadcast proof fn lemma_error_response_round_trip(r: ErrorResponseV)
    requires
        i32::MIN <= r.error.code <= i32::MAX,
    ensures
        #[trigger] dec_error_response(enc_error_response(r)) == Some(r),
{
    broadcast use vstd::string::group_string_axioms;
    broadcast use lemma_lookup_push;

    reveal_strlit("jsonrpc");
    reveal_strlit("id");
    reveal_strlit("method");
    reveal_strlit("params");
    reveal_strlit("result");
    reveal_strlit("error");
    assert("jsonrpc"@.len() == 7);
    assert("id"@.len() == 2);
    assert("method"@.len() == 6);
    assert("params"@.len() == 6);
    assert("result"@.len() == 6);
    assert("error"@.len() == 5);
    assert("method"@[0] == 'm');
    assert("params"@[0] == 'p');
    assert("result"@[0] == 'r');
    let base = seq![("jsonrpc"@, JsonVal::Str(r.jsonrpc))];
    assert(lookup(base, "jsonrpc"@) == Some(JsonVal::Str(r.jsonrpc)));
    assert(lookup(base, "id"@) is None);
    assert(lookup(base, "error"@) is None);
    lemma_id_round_trip(r.id);
    lemma_error_data_round_trip(r.error);
}

pub open spec fn enc_notification(n: NotificationV) -> JsonVal {
    JsonVal::Obj(
        match n.params {
            Some(p) => seq![("jsonrpc"@, JsonVal::Str(n.jsonrpc))].push(
                ("method"@, JsonVal::Str(n.method)),
            ).push(("params"@, p)),
            None => seq![("jsonrpc"@, JsonVal::Str(n.jsonrpc))].push(
                ("method"@, JsonVal::Str(n.method)),
            ),
        },
    )
}

pub open spec fn dec_notification(j: JsonVal) -> Option<NotificationV> {
    match j {
        JsonVal::Obj(ms) => match (lookup(ms, "jsonrpc"@), lookup(ms, "method"@)) {
            (Some(JsonVal::Str(ver)), Some(JsonVal::Str(m))) => {
                if lookup(ms, "id"@) is Some {
                    None
                } else {
                    Some(NotificationV { jsonrpc: ver, method: m, params: lookup(ms, "params"@) })
                }
            },
            _ => None,
        },
        _ => None,
    }
}

pub fn encode_notification(n: &Notification) -> (out: Json)
    ensures
        out.deep_view() == enc_notification(n.deep_view()),
{
    let mut m: Vec<(String, Json)> = Vec::new();
    obj_push(&mut m, "jsonrpc", Json::Str(n.jsonrpc.clone()));
    obj_push(&mut m, "method", Json::Str(n.method.clone()));
    match &n.params {
        Some(p) => {
            obj_push(&mut m, "params", p.clone());
        },
        None => {},
    }
    let out = Json::Obj(m);
    proof {
        assert(jview_members(m@) =~= enc_notification(n.deep_view())->Obj_0);
    }
    out
}

pub fn decode_notification(j: &Json) -> (r: Option<Notification>)
    ensures
        r.deep_view() == dec_notification(j.deep_view()),
{
    let members = match j {
        Json::Obj(ms) => ms,
        _ => {
            return None;
        },
    };
    let jsonrpc = match obj_get(members, "jsonrpc") {
        Some(Json::Str(s)) => s.clone(),
        _ => {
            return None;
        },
    };
    let method = match obj_get(members, "method") {
        Some(Json::Str(s)) => s.clone(),
        _ => {
            return None;
        },
    };
    if obj_get(members, "id").is_some() {
        return None;
    }
    let params = match obj_get(members, "params") {
        Some(p) => Some(p.clone()),
        None => None,
    };
    Some(Notification { jsonrpc, method, params })
}

/// A notification survives the trip onto the wire and back.
pub broadcast proof fn lemma_notification_round_trip(n: NotificationV)
    ensures
        #[trigger] dec_notification(enc_notification(n)) == Some(n),
{
    broadcast use vstd::string::group_string_axioms;
    broadcast use lemma_lookup_push;

    reveal_strlit("jsonrpc");
    reveal_strlit("id");
    reveal_strlit("method");
    reveal_strlit("params");
    reveal_strlit("result");
    reveal_strlit("error");
    assert("jsonrpc"@.len() == 7);
    assert("id"@.len() == 2);
    assert("method"@.len() == 6);
    assert("params"@.len() == 6);
    assert("result"@.len() == 6);
    assert("error"@.len() == 5);
    assert("method"@[0] == 'm');
    assert("params"@[0] == 'p');
    assert("result"@[0] == 'r');
    let base = seq![("jsonrpc"@, JsonVal::Str(n.jsonrpc))];
    assert(lookup(base, "jsonrpc"@) == Some(JsonVal::Str(n.jsonrpc)));
    assert(lookup(base, "method"@) is None);
    assert(lookup(base, "params"@) is None);
    assert(lookup(base, "id"@) is None);
}

// --- Handshake records ---

pub open spec fn enc_implementation(v: ImplementationV) -> JsonVal {
    JsonVal::Obj(
        seq![("name"@, JsonVal::Str(v.name))].push(("version"@, JsonVal::Str(v.version))),
    )
}

pub open spec fn dec_implementation(j: JsonVal) -> Option<ImplementationV> {
    match j {
        JsonVal::Obj(ms) => match (dec_str_field(ms, "name"@), dec_str_field(ms, "version"@)) {
            (Some(n), Some(ver)) => Some(ImplementationV { name: n, version: ver }),
            _ => None,
        },
        _ => None,
    }
}

pub fn encode_implementation(v: &Implementation) -> (out: Json)
    ensures
        out.deep_view() == enc_implementation(v.deep_view()),
{
    let mut m: Vec<(String, Json)> = Vec::new();
    obj_push(&mut m, "name", Json::Str(v.name.clone()));
    obj_push(&mut m, "version", Json::Str(v.version.clone()));
    let out = Json::Obj(m);
    proof {
        assert(jview_members(m@) =~= enc_implementation(v.deep_view())->Obj_0);
    }
    out
}

pub fn decode_implementation(j: &Json) -> (r: Option<Implementation>)
    ensures
        r.deep_view() == dec_implementation(j.deep_view()),
{
    let members = match j {
        Json::Obj(ms) => ms,
        _ => {
            return None;
        },
    };
    let name = match obj_get_str(members, "name") {
        Some(s) => s,
        None => {
            return None;
        },
    };
    let version = match obj_get_str(members, "version") {
        Some(s) => s,
        None => {
            return None;
        },
    };
    Some(Implementation { name, version })
}

/// A peer identity survives the trip onto the wire and back.
pub broadcast proof fn lemma_implementation_round_trip(v: ImplementationV)
    ensures
        #[trigger] dec_implementation(enc_implementation(v)) == Some(v),
{
    broadcast use vstd::string::group_string_axioms;
    broadcast use lemma_lookup_push;

    reveal_strlit("name");
    reveal_strlit("version");
    assert("name"@.len() == 4);
    assert("version"@.len() == 7);
    let base = seq![("name"@, JsonVal::Str(v.name))];
    assert(lookup(base, "name"@) == Some(JsonVal::Str(v.name)));
    assert(lookup(base, "version"@) is None);
}

pub open spec fn enc_tools_capability(v: ToolsCapabilityV) -> JsonVal {
    JsonVal::Obj(
        match v.list_changed {
            Some(b) => seq![("listChanged"@, JsonVal::Bool(b))],
            None => Seq::empty(),
        },
    )
}

pub open spec fn dec_tools_capability(j: JsonVal) -> Option<ToolsCapabilityV> {
    match j {
        JsonVal::Obj(ms) => match dec_opt_bool_field(ms, "listChanged"@) {
            Some(lc) => Some(ToolsCapabilityV { list_changed: lc }),
            None => None,
        },
        _ => None,
    }
}

pub fn encode_tools_capability(v: &ToolsCapability) -> (out: Json)
    ensures
        out.deep_view() == enc_tools_capability(v.deep_view()),
{
    let mut m: Vec<(String, Json)> = Vec::new();
    match &v.list_changed {
        Some(b) => {
            obj_push(&mut m, "listChanged", Json::Bool(*b));
        },
        None => {},
    }
    let out = Json::Obj(m);
    proof {
        assert(jview_members(m@) =~= enc_tools_capability(v.deep_view())->Obj_0);
    }
    out
}

pub fn decode_tools_capability(j: &Json) -> (r: Option<ToolsCapability>)
    ensures
        r.deep_view() == dec_tools_capability(j.deep_view()),
{
    let members = match j {
        Json::Obj(ms) => ms,
        _ => {
            return None;
        },
    };
    match obj_get_opt_bool(members, "listChanged") {
        Some(lc) => Some(ToolsCapability { list_changed: lc }),
        None => None,
    }
}

/// The tools sub-capability survives the trip onto the wire and back.
pub broadcast proof fn lemma_tools_capability_round_trip(v: ToolsCapabilityV)
    ensures
        #[trigger] dec_tools_capability(enc_tools_capability(v)) == Some(v),
{
    let ms = enc_tools_capability(v)->Obj_0;
    match v.list_changed {
        Some(b) => {
            assert(lookup(ms, "listChanged"@) == Some(JsonVal::Bool(b)));
        },
        None => {
            assert(lookup(ms, "listChanged"@) is None);
        },
    }
}

/// Shared encoding of the one-field capability descriptors.
pub open spec fn enc_capabilities(tools: Option<ToolsCapabilityV>) -> JsonVal {
    JsonVal::Obj(
        match tools {
            Some(t) => seq![("tools"@, enc_tools_capability(t))],
            None => Seq::empty(),
        },
    )
}

pub open spec fn dec_capabilities_tools(j: JsonVal) -> Option<Option<ToolsCapabilityV>> {
    match j {
        JsonVal::Obj(ms) => match lookup(ms, "tools"@) {
            None => Some(None),
            Some(tj) => match dec_tools_capability(tj) {
                Some(t) => Some(Some(t)),
                None => None,
            },
        },
        _ => None,
    }
}

pub fn encode_client_capabilities(v: &ClientCapabilities) -> (out: Json)
    ensures
        out.deep_view() == enc_capabilities(v.deep_view().tools),
{
    let mut m: Vec<(String, Json)> = Vec::new();
    match &v.tools {
        Some(t) => {
            obj_push(&mut m, "tools", encode_tools_capability(t));
        },
        None => {},
    }
    let out = Json::Obj(m);
    proof {
        assert(jview_members(m@) =~= enc_capabilities(v.deep_view().tools)->Obj_0);
    }
    out
}

pub fn decode_client_capabilities(j: &Json) -> (r: Option<ClientCapabilities>)
    ensures
        match r {
            Some(c) => dec_capabilities_tools(j.deep_view()) == Some(c.deep_view().tools),
            None => dec_capabilities_tools(j.deep_view()) is None,
        },
{
    let members = match j {
        Json::Obj(ms) => ms,
        _ => {
            return None;
        },
    };
    match obj_get(members, "tools") {
        None => Some(ClientCapabilities { tools: None }),
        Some(tj) => match decode_tools_capability(tj) {
            Some(t) => Some(ClientCapabilities { tools: Some(t) }),
            None => None,
        },
    }
}

pub fn encode_server_capabilities(v: &ServerCapabilities) -> (out: Json)
    ensures
        out.deep_view() == enc_capabilities(v.deep_view().tools),
{
    let mut m: Vec<(String, Json)> = Vec::new();
    match &v.tools {
        Some(t) => {
            obj_push(&mut m, "tools", encode_tools_capability(t));
        },
        None => {},
    }
    let out = Json::Obj(m);
    proof {
        assert(jview_members(m@) =~= enc_capabilities(v.deep_view().tools)->Obj_0);
    }
    out
}

pub fn decode_server_capabilities(j: &Json) -> (r: Option<ServerCapabilities>)
    ensures
        match r {
            Some(c) => dec_capabilities_tools(j.deep_view()) == Some(c.deep_view().tools),
            None => dec_capabilities_tools(j.deep_view()) is None,
        },
{
    let members = match j {
        Json::Obj(ms) => ms,
        _ => {
            return None;
        },
    };
    match obj_get(members, "tools") {
        None => Some(ServerCapabilities { tools: None }),
        Some(tj) => match decode_tools_capability(tj) {
            Some(t) => Some(ServerCapabilities { tools: Some(t) }),
            None => None,
        },
    }
}

/// A capability descriptor survives the trip onto the wire and back.
pub broadcast proof fn lemma_capabilities_round_trip(tools: Option<ToolsCapabilityV>)
    ensures
        #[trigger] dec_capabilities_tools(enc_capabilities(tools)) == Some(tools),
{
    let ms = enc_capabilities(tools)->Obj_0;
    match tools {
        Some(t) => {
            assert(lookup(ms, "tools"@) == Some(enc_tools_capability(t)));
            lemma_tools_capability_round_trip(t);
        },
        None => {
            assert(lookup(ms, "tools"@) is None);
        },
    }
}

pub open spec fn enc_initialize_params(v: InitializeRequestParamsV) -> JsonVal {
    JsonVal::Obj(
        seq![("protocolVersion"@, JsonVal::Str(v.protocol_version))].push(
            ("capabilities"@, enc_capabilities(v.capabilities.tools)),
        ).push(("clientInfo"@, enc_implementation(v.client_info))),
    )
}

pub open spec fn dec_initialize_params(j: JsonVal) -> Option<InitializeRequestParamsV> {
    match j {
        JsonVal::Obj(ms) => match (
            dec_str_field(ms, "protocolVersion"@),
            lookup(ms, "capabilities"@),
            lookup(ms, "clientInfo"@),
        ) {
            (Some(pv), Some(cj), Some(ij)) => match (dec_capabilities_tools(cj), dec_implementation(ij)) {
                (Some(tools), Some(info)) => Some(
                    InitializeRequestParamsV {
                        protocol_version: pv,
                        capabilities: ClientCapabilitiesV { tools },
                        client_info: info,
                    },
                ),
                _ => None,
            },
            _ => None,
        },
        _ => None,
    }
}

pub fn encode_initialize_params(v: &InitializeRequestParams) -> (out: Json)
    ensures
        out.deep_view() == enc_initialize_params(v.deep_view()),
{
    let mut m: Vec<(String, Json)> = Vec::new();
    obj_push(&mut m, "protocolVersion", Json::Str(v.protocol_version.clone()));
    obj_push(&mut m, "capabilities", encode_client_capabilities(&v.capabilities));
    obj_push(&mut m, "clientInfo", encode_implementation(&v.client_info));
    let out = Json::Obj(m);
    proof {
        assert(jview_members(m@) =~= enc_initialize_params(v.deep_view())->Obj_0);
    }
    out
}

pub fn decode_initialize_params(j: &Json) -> (r: Option<InitializeRequestParams>)
    ensures
        r.deep_view() == dec_initialize_params(j.deep_view()),
{
    let members = match j {
        Json::Obj(ms) => ms,
        _ => {
            return None;
        },
    };
    let protocol_version = match obj_get_str(members, "protocolVersion") {
        Some(s) => s,
        None => {
            return None;
        },
    };
    let capabilities = match obj_get(members, "capabilities") {
        Some(cj) => match decode_client_capabilities(cj) {
            Some(c) => c,
            None => {
                return None;
            },
        },
        None => {
            return None;
        },
    };
    let client_info = match obj_get(members, "clientInfo") {
        Some(ij) => match decode_implementation(ij) {
            Some(i) => i,
            None => {
                return None;
            },
        },
        None => {
            return None;
        },
    };
    Some(InitializeRequestParams { protocol_version, capabilities, client_info })
}

/// Handshake request parameters survive the trip onto the wire and back.
pub broadcast proof fn lemma_initialize_params_round_trip(v: InitializeRequestParamsV)
    ensures
        #[trigger] dec_initialize_params(enc_initialize_params(v)) == Some(v),
{
    broadcast use vstd::string::group_string_axioms;
    broadcast use lemma_lookup_push;

    reveal_strlit("protocolVersion");
    reveal_strlit("capabilities");
    reveal_strlit("clientInfo");
    assert("protocolVersion"@.len() == 15);
    assert("capabilities"@.len() == 12);
    assert("clientInfo"@.len() == 10);
    let base = seq![("protocolVersion"@, JsonVal::Str(v.protocol_version))];
    assert(lookup(base, "protocolVersion"@) == Some(JsonVal::Str(v.protocol_version)));
    assert(lookup(base, "capabilities"@) is None);
    assert(lookup(base, "clientInfo"@) is None);
    lemma_capabilities_round_trip(v.capabilities.tools);
    lemma_implementation_round_trip(v.client_info);
}

pub open spec fn enc_initialize_result(v: InitializeResultV) -> JsonVal {
    JsonVal::Obj(
        seq![("protocolVersion"@, JsonVal::Str(v.protocol_version))].push(
            ("capabilities"@, enc_capabilities(v.capabilities.tools)),
        ).push(("serverInfo"@, enc_implementation(v.server_info))),
    )
}

pub open spec fn dec_initialize_result(j: JsonVal) -> Option<InitializeResultV> {
    match j {
        JsonVal::Obj(ms) => match (
            dec_str_field(ms, "protocolVersion"@),
            lookup(ms, "capabilities"@),
            lookup(ms, "serverInfo"@),
        ) {
            (Some(pv), Some(cj), Some(ij)) => match (dec_capabilities_tools(cj), dec_implementation(ij)) {
                (Some(tools), Some(info)) => Some(
                    InitializeResultV {
                        protocol_version: pv,
                        capabilities: ServerCapabilitiesV { tools },
                        server_info: info,
                    },
                ),
                _ => None,
            },
            _ => None,
        },
        _ => None,
    }
}

pub fn encode_initialize_result(v: &InitializeResult) -> (out: Json)
    ensures
        out.deep_view() == enc_initialize_result(v.deep_view()),
{
    let mut m: Vec<(String, Json)> = Vec::new();
    obj_push(&mut m, "protocolVersion", Json::Str(v.protocol_version.clone()));
    obj_push(&mut m, "capabilities", encode_server_capabilities(&v.capabilities));
    obj_push(&mut m, "serverInfo", encode_implementation(&v.server_info));
    let out = Json::Obj(m);
    proof {
        assert(jview_members(m@) =~= enc_initialize_result(v.deep_view())->Obj_0);
    }
    out
}

pub fn decode_initialize_result(j: &Json) -> (r: Option<InitializeResult>)
    ensures
        r.deep_view() == dec_initialize_result(j.deep_view()),
{
    let members = match j {
        Json::Obj(ms) => ms,
        _ => {
            return None;
        },
    };
    let protocol_version = match obj_get_str(members, "protocolVersion") {
        Some(s) => s,
        None => {
            return None;
        },
    };
    let capabilities = match obj_get(members, "capabilities") {
        Some(cj) => match decode_server_capabilities(cj) {
            Some(c) => c,
            None => {
                return None;
            },
        },
        None => {
            return None;
        },
    };
    let server_info = match obj_get(members, "serverInfo") {
        Some(ij) => match decode_implementation(ij) {
            Some(i) => i,
            None => {
                return None;
            },
        },
        None => {
            return None;
        },
    };
    Some(InitializeResult { protocol_version, capabilities, server_info })
}

/// The handshake result survives the trip onto the wire and back.
pub broadcast proof fn lemma_initialize_result_round_trip(v: InitializeResultV)
    ensures
        #[trigger] dec_initialize_result(enc_initialize_result(v)) == Some(v),
{
    broadcast use vstd::string::group_string_axioms;
    broadcast use lemma_lookup_push;

    reveal_strlit("protocolVersion");
    reveal_strlit("capabilities");
    reveal_strlit("serverInfo");
    assert("protocolVersion"@.len() == 15);
    assert("capabilities"@.len() == 12);
    assert("serverInfo"@.len() == 10);
    let base = seq![("protocolVersion"@, JsonVal::Str(v.protocol_version))];
    assert(lookup(base, "protocolVersion"@) == Some(JsonVal::Str(v.protocol_version)));
    assert(lookup(base, "capabilities"@) is None);
    assert(lookup(base, "serverInfo"@) is None);
    lemma_capabilities_round_trip(v.capabilities.tools);
    lemma_implementation_round_trip(v.server_info);
}

// --- Method parameters ---

/// The encoding of the parameter records that carry no fields.
pub open spec fn enc_empty_params() -> JsonVal {
    JsonVal::Obj(Seq::empty())
}

pub fn encode_empty_params() -> (out: Json)
    ensures
        out.deep_view() == enc_empty_params(),
{
    let m: Vec<(String, Json)> = Vec::new();
    let out = Json::Obj(m);
    proof {
        assert(jview_members(m@) =~= enc_empty_params()->Obj_0);
    }
    out
}

pub open spec fn enc_call_tool_params(v: CallToolParamsV) -> JsonVal {
    JsonVal::Obj(seq![("name"@, JsonVal::Str(v.name))].push(("arguments"@, v.arguments)))
}

pub open spec fn dec_call_tool_params(j: JsonVal) -> Option<CallToolParamsV> {
    match j {
        JsonVal::Obj(ms) => match (dec_str_field(ms, "name"@), lookup(ms, "arguments"@)) {
            (Some(n), Some(a)) => Some(CallToolParamsV { name: n, arguments: a }),
            _ => None,
        },
        _ => None,
    }
}

pub fn encode_call_tool_params(v: &CallToolParams) -> (out: Json)
    ensures
        out.deep_view() == enc_call_tool_params(v.deep_view()),
{
    let mut m: Vec<(String, Json)> = Vec::new();
    obj_push(&mut m, "name", Json::Str(v.name.clone()));
    obj_push(&mut m, "arguments", v.arguments.clone());
    let out = Json::Obj(m);
    proof {
        assert(jview_members(m@) =~= enc_call_tool_params(v.deep_view())->Obj_0);
    }
    out
}

pub fn decode_call_tool_params(j: &Json) -> (r: Option<CallToolParams>)
    ensures
        r.deep_view() == dec_call_tool_params(j.deep_view()),
{
    let members = match j {
        Json::Obj(ms) => ms,
        _ => {
            return None;
        },
    };
    let name = match obj_get_str(members, "name") {
        Some(s) => s,
        None => {
            return None;
        },
    };
    let arguments = match obj_get(members, "arguments") {
        Some(a) => a.clone(),
        None => {
            return None;
        },
    };
    Some(CallToolParams { name, arguments })
}

/// Tool-call parameters survive the trip onto the wire and back.
pub broadcast proof fn lemma_call_tool_params_round_trip(v: CallToolParamsV)
    ensures
        #[trigger] dec_call_tool_params(enc_call_tool_params(v)) == Some(v),
{
    broadcast use vstd::string::group_string_axioms;
    broadcast use lemma_lookup_push;

    reveal_strlit("name");
    reveal_strlit("arguments");
    assert("name"@.len() == 4);
    assert("arguments"@.len() == 9);
    let base = seq![("name"@, JsonVal::Str(v.name))];
    assert(lookup(base, "name"@) == Some(JsonVal::Str(v.name)));
    assert(lookup(base, "arguments"@) is None);
}

pub open spec fn enc_read_resource_params(v: ReadResourceParamsV) -> JsonVal {
    JsonVal::Obj(seq![("uri"@, JsonVal::Str(v.uri))])
}

pub open spec fn dec_read_resource_params(j: JsonVal) -> Option<ReadResourceParamsV> {
    match j {
        JsonVal::Obj(ms) => match dec_str_field(ms, "uri"@) {
            Some(u) => Some(ReadResourceParamsV { uri: u }),
            None => None,
        },
        _ => None,
    }
}

pub fn encode_read_resource_params(v: &ReadResourceParams) -> (out: Json)
    ensures
        out.deep_view() == enc_read_resource_params(v.deep_view()),
{
    let mut m: Vec<(String, Json)> = Vec::new();
    obj_push(&mut m, "uri", Json::Str(v.uri.clone()));
    let out = Json::Obj(m);
    proof {
        assert(jview_members(m@) =~= enc_read_resource_params(v.deep_view())->Obj_0);
    }
    out
}

pub fn decode_read_resource_params(j: &Json) -> (r: Option<ReadResourceParams>)
    ensures
        r.deep_view() == dec_read_resource_params(j.deep_view()),
{
    let members = match j {
        Json::Obj(ms) => ms,
        _ => {
            return None;
        },
    };
    match obj_get_str(members, "uri") {
        Some(u) => Some(ReadResourceParams { uri: u }),
        None => None,
    }
}

/// Resource-read parameters survive the trip onto the wire and back.
pub broadcast proof fn lemma_read_resource_params_round_trip(v: ReadResourceParamsV)
    ensures
        #[trigger] dec_read_resource_params(enc_read_resource_params(v)) == Some(v),
{
    let ms = enc_read_resource_params(v)->Obj_0;
    assert(lookup(ms, "uri"@) == Some(JsonVal::Str(v.uri)));
}

pub open spec fn enc_get_prompt_params(v: GetPromptParamsV) -> JsonVal {
    JsonVal::Obj(
        match v.arguments {
            Some(a) => seq![("name"@, JsonVal::Str(v.name))].push(("arguments"@, a)),
            None => seq![("name"@, JsonVal::Str(v.name))],
        },
    )
}

pub open spec fn dec_get_prompt_params(j: JsonVal) -> Option<GetPromptParamsV> {
    match j {
        JsonVal::Obj(ms) => match dec_str_field(ms, "name"@) {
            Some(n) => Some(GetPromptParamsV { name: n, arguments: lookup(ms, "arguments"@) }),
            None => None,
        },
        _ => None,
    }
}

pub fn encode_get_prompt_params(v: &GetPromptParams) -> (out: Json)
    ensures
        out.deep_view() == enc_get_prompt_params(v.deep_view()),
{
    let mut m: Vec<(String, Json)> = Vec::new();
    obj_push(&mut m, "name", Json::Str(v.name.clone()));
    match &v.arguments {
        Some(a) => {
            obj_push(&mut m, "arguments", a.clone());
        },
        None => {},
    }
    let out = Json::Obj(m);
    proof {
        assert(jview_members(m@) =~= enc_get_prompt_params(v.deep_view())->Obj_0);
    }
    out
}

pub fn decode_get_prompt_params(j: &Json) -> (r: Option<GetPromptParams>)
    ensures
        r.deep_view() == dec_get_prompt_params(j.deep_view()),
{
    let members = match j {
        Json::Obj(ms) => ms,
        _ => {
            return None;
        },
    };
    let name = match obj_get_str(members, "name") {
        Some(s) => s,
        None => {
            return None;
        },
    };
    let arguments = match obj_get(members, "arguments") {
        Some(a) => Some(a.clone()),
        None => None,
    };
    Some(GetPromptParams { name, arguments })
}

/// Prompt-get parameters survive the trip onto the wire and back.
pub broadcast proof fn lemma_get_prompt_params_round_trip(v: GetPromptParamsV)
    ensures
        #[trigger] dec_get_prompt_params(enc_get_prompt_params(v)) == Some(v),
{
    broadcast use vstd::string::group_string_axioms;
    broadcast use lemma_lookup_push;

    reveal_strlit("name");
    reveal_strlit("arguments");
    assert("name"@.len() == 4);
    assert("arguments"@.len() == 9);
    let base = seq![("name"@, JsonVal::Str(v.name))];
    assert(lookup(base, "name"@) == Some(JsonVal::Str(v.name)));
    assert(lookup(base, "arguments"@) is None);
}

// --- Tools ---

pub open spec fn enc_tool_annotations(v: ToolAnnotationsV) -> JsonVal {
    JsonVal::Obj(enc_tool_annotations_members(v))
}

pub open spec fn enc_tool_annotations_members(v: ToolAnnotationsV) -> Seq<(Seq<char>, JsonVal)> {
    let m = Seq::<(Seq<char>, JsonVal)>::empty();
    let m = if v.title is Some {
        m.push(("title"@, JsonVal::Str(v.title->0)))
    } else {
        m
    };
    let m = if v.read_only_hint is Some {
        m.push(("readOnlyHint"@, JsonVal::Bool(v.read_only_hint->0)))
    } else {
        m
    };
    if v.destructive_hint is Some {
        m.push(("destructiveHint"@, JsonVal::Bool(v.destructive_hint->0)))
    } else {
        m
    }
}

pub open spec fn dec_tool_annotations(j: JsonVal) -> Option<ToolAnnotationsV> {
    match j {
        JsonVal::Obj(ms) => match (
            dec_opt_str_field(ms, "title"@),
            dec_opt_bool_field(ms, "readOnlyHint"@),
            dec_opt_bool_field(ms, "destructiveHint"@),
        ) {
            (Some(t), Some(ro), Some(de)) => Some(
                ToolAnnotationsV { title: t, read_only_hint: ro, destructive_hint: de },
            ),
            _ => None,
        },
        _ => None,
    }
}

pub fn encode_tool_annotations(v: &ToolAnnotations) -> (out: Json)
    ensures
        out.deep_view() == enc_tool_annotations(v.deep_view()),
{
    let mut m: Vec<(String, Json)> = Vec::new();
    match &v.title {
        Some(t) => {
            obj_push(&mut m, "title", Json::Str(t.clone()));
        },
        None => {},
    }
    match &v.read_only_hint {
        Some(b) => {
            obj_push(&mut m, "readOnlyHint", Json::Bool(*b));
        },
        None => {},
    }
    match &v.destructive_hint {
        Some(b) => {
            obj_push(&mut m, "destructiveHint", Json::Bool(*b));
        },
        None => {},
    }
    let out = Json::Obj(m);
    proof {
        assert(jview_members(m@) =~= enc_tool_annotations_members(v.deep_view()));
    }
    out
}

pub fn decode_tool_annotations(j: &Json) -> (r: Option<ToolAnnotations>)
    ensures
        r.deep_view() == dec_tool_annotations(j.deep_view()),
{
    let members = match j {
        Json::Obj(ms) => ms,
        _ => {
            return None;
        },
    };
    let title = match obj_get_opt_str(members, "title") {
        Some(t) => t,
        None => {
            return None;
        },
    };
    let read_only_hint = match obj_get_opt_bool(members, "readOnlyHint") {
        Some(b) => b,
        None => {
            return None;
        },
    };
    let destructive_hint = match obj_get_opt_bool(members, "destructiveHint") {
        Some(b) => b,
        None => {
            return None;
        },
    };
    Some(ToolAnnotations { title, read_only_hint, destructive_hint })
}

/// Tool annotations survive the trip onto the wire and back.
pub broadcast proof fn lemma_tool_annotations_round_trip(v: ToolAnnotationsV)
    ensures
        #[trigger] dec_tool_annotations(enc_tool_annotations(v)) == Some(v),
{
    broadcast use vstd::string::group_string_axioms;
    broadcast use lemma_lookup_push;

    reveal_strlit("title");
    reveal_strlit("readOnlyHint");
    reveal_strlit("destructiveHint");
    assert("title"@.len() == 5);
    assert("readOnlyHint"@.len() == 12);
    assert("destructiveHint"@.len() == 15);
    let e = Seq::<(Seq<char>, JsonVal)>::empty();
    assert(lookup(e, "title"@) is None);
    assert(lookup(e, "readOnlyHint"@) is None);
    assert(lookup(e, "destructiveHint"@) is None);
}

pub open spec fn enc_tool(t: ToolV) -> JsonVal {
    JsonVal::Obj(enc_tool_members(t))
}

pub open spec fn enc_tool_members(t: ToolV) -> Seq<(Seq<char>, JsonVal)> {
    let m = seq![("name"@, JsonVal::Str(t.name))];
    let m = if t.description is Some {
        m.push(("description"@, JsonVal::Str(t.description->0)))
    } else {
        m
    };
    let m = m.push(("inputSchema"@, t.input_schema));
    if t.annotations is Some {
        m.push(("annotations"@, enc_tool_annotations(t.annotations->0)))
    } else {
        m
    }
}

pub open spec fn dec_tool(j: JsonVal) -> Option<ToolV> {
    match j {
        JsonVal::Obj(ms) => match (
            dec_str_field(ms, "name"@),
            dec_opt_str_field(ms, "description"@),
            lookup(ms, "inputSchema"@),
            lookup(ms, "annotations"@),
        ) {
            (Some(n), Some(d), Some(schema), annj) => match annj {
                None => Some(
                    ToolV { name: n, description: d, input_schema: schema, annotations: None },
                ),
                Some(aj) => match dec_tool_annotations(aj) {
                    Some(a) => Some(
                        ToolV {
                            name: n,
                            description: d,
                            input_schema: schema,
                            annotations: Some(a),
                        },
                    ),
                    None => None,
                },
            },
            _ => None,
        },
        _ => None,
    }
}

pub fn encode_tool(t: &Tool) -> (out: Json)
    ensures
        out.deep_view() == enc_tool(t.deep_view()),
{
    let mut m: Vec<(String, Json)> = Vec::new();
    obj_push(&mut m, "name", Json::Str(t.name.clone()));
    match &t.description {
        Some(d) => {
            obj_push(&mut m, "description", Json::Str(d.clone()));
        },
        None => {},
    }
    obj_push(&mut m, "inputSchema", t.input_schema.clone());
    match &t.annotations {
        Some(a) => {
            obj_push(&mut m, "annotations", encode_tool_annotations(a));
        },
        None => {},
    }
    let out = Json::Obj(m);
    proof {
        assert(jview_members(m@) =~= enc_tool_members(t.deep_view()));
    }
    out
}

pub fn decode_tool(j: &Json) -> (r: Option<Tool>)
    ensures
        r.deep_view() == dec_tool(j.deep_view()),
{
    let members = match j {
        Json::Obj(ms) => ms,
        _ => {
            return None;
        },
    };
    let name = match obj_get_str(members, "name") {
        Some(s) => s,
        None => {
            return None;
        },
    };
    let description = match obj_get_opt_str(members, "description") {
        Some(d) => d,
        None => {
            return None;
        },
    };
    let input_schema = match obj_get(members, "inputSchema") {
        Some(sj) => sj.clone(),
        None => {
            return None;
        },
    };
    let annotations = match obj_get(members, "annotations") {
        None => None,
        Some(aj) => match decode_tool_annotations(aj) {
            Some(a) => Some(a),
            None => {
                return None;
            },
        },
    };
    Some(Tool { name, description, input_schema, annotations })
}

/// A tool record survives the trip onto the wire and back.
pub broadcast proof fn lemma_tool_round_trip(t: ToolV)
    ensures
        #[trigger] dec_tool(enc_tool(t)) == Some(t),
{
    broadcast use vstd::string::group_string_axioms;
    broadcast use lemma_lookup_push;

    reveal_strlit("name");
    reveal_strlit("description");
    reveal_strlit("inputSchema");
    reveal_strlit("annotations");
    assert("name"@.len() == 4);
    assert("description"@.len() == 11);
    assert("inputSchema"@.len() == 11);
    assert("annotations"@.len() == 11);
    assert("description"@[0] == 'd');
    assert("inputSchema"@[0] == 'i');
    assert("annotations"@[0] == 'a');
    let base = seq![("name"@, JsonVal::Str(t.name))];
    assert(lookup(base, "name"@) == Some(JsonVal::Str(t.name)));
    assert(lookup(base, "description"@) is None);
    assert(lookup(base, "inputSchema"@) is None);
    assert(lookup(base, "annotations"@) is None);
    match t.annotations {
        Some(a) => {
            lemma_tool_annotations_round_trip(a);
        },
        None => {},
    }
}

// --- Sequences of tools, and the list result ---

pub open spec fn enc_tool_seq(ts: Seq<ToolV>) -> Seq<JsonVal> {
    ts.map_values(|t: ToolV| enc_tool(t))
}

pub open spec fn dec_tool_seq(js: Seq<JsonVal>) -> Option<Seq<ToolV>>
    decreases js,
{
    if js.len() == 0 {
        Some(Seq::empty())
    } else {
        match (dec_tool(js[0]), dec_tool_seq(js.drop_first())) {
            (Some(t), Some(rest)) => Some(seq![t] + rest),
            _ => None,
        }
    }
}

pub fn encode_tool_seq(ts: &Vec<Tool>) -> (out: Vec<Json>)
    ensures
        crate::json::jview_seq(out@) == enc_tool_seq(ts.deep_view()),
{
    let n = ts.len();
    let mut out: Vec<Json> = Vec::new();
    let mut i: usize = 0;
    proof {
        assert(crate::json::jview_seq(out@) =~= enc_tool_seq(ts.deep_view().take(0)));
    }
    while i < n
        invariant
            n == ts@.len(),
            i <= n,
            out@.len() == i,
            crate::json::jview_seq(out@) == enc_tool_seq(ts.deep_view().take(i as int)),
        decreases n - i,
    {
        let c = encode_tool(&ts[i]);
        let ghost prev = out@;
        out.push(c);
        proof {
            assert(out@.drop_last() =~= prev);
            assert(ts.deep_view().take(i + 1).drop_last() =~= ts.deep_view().take(i as int));
            assert(crate::json::jview_seq(out@) =~= enc_tool_seq(ts.deep_view().take(i + 1)));
        }
        i = i + 1;
    }
    proof {
        assert(ts.deep_view().take(n as int) =~= ts.deep_view());
    }
    out
}

pub fn decode_tool_seq(js: &Vec<Json>) -> (r: Option<Vec<Tool>>)
    ensures
        r.deep_view() == dec_tool_seq(crate::json::jview_seq(js@)),
{
    let ghost whole = crate::json::jview_seq(js@);
    let n = js.len();
    proof {
        crate::json::lemma_jview_seq_len(js@);
        assert(whole.skip(0) =~= whole);
    }
    let mut out: Vec<Tool> = Vec::new();
    let mut i: usize = 0;
    while i < n
        invariant
            n == js@.len(),
            whole == crate::json::jview_seq(js@),
            whole.len() == n,
            i <= n,
            out@.len() == i,
            dec_tool_seq(whole) == (match dec_tool_seq(whole.skip(i as int)) {
                Some(rest) => Some(out.deep_view() + rest),
                None => None,
            }),
        decreases n - i,
    {
        proof {
            crate::json::lemma_jview_seq_index(js@, i as int);
            assert(whole.skip(i as int)[0] == whole[i as int]);
        }
        let t = match decode_tool(&js[i]) {
            Some(t) => t,
            None => {
                proof {
                    assert(dec_tool(whole.skip(i as int)[0]) is None);
                    assert(dec_tool_seq(whole.skip(i as int)) is None);
                }
                return None;
            },
        };
        let ghost prev = out@;
        let ghost prevdv = out.deep_view();
        out.push(t);
        proof {
            assert(out@.drop_last() =~= prev);
            assert(out.deep_view() =~= prevdv.push(t.deep_view()));
            assert(whole.skip(i as int).drop_first() =~= whole.skip(i + 1));
            assert(dec_tool(whole.skip(i as int)[0]) == Some(t.deep_view()));
            match dec_tool_seq(whole.skip(i + 1)) {
                Some(rest) => {
                    assert(dec_tool_seq(whole.skip(i as int)) == Some(
                        seq![t.deep_view()] + rest,
                    ));
                    assert(prevdv + (seq![t.deep_view()] + rest) =~= out.deep_view() + rest);
                },
                None => {
                    assert(dec_tool_seq(whole.skip(i as int)) is None);
                },
            }
        }
        i = i + 1;
    }
    proof {
        assert(whole.skip(n as int) =~= Seq::<JsonVal>::empty());
        assert(out.deep_view() + Seq::<ToolV>::empty() =~= out.deep_view());
    }
    Some(out)
}

/// A sequence of tools survives the trip onto the wire and back.
pub broadcast proof fn lemma_tool_seq_round_trip(ts: Seq<ToolV>)
    ensures
        #[trigger] dec_tool_seq(enc_tool_seq(ts)) == Some(ts),
    decreases ts,
{
    if ts.len() == 0 {
        assert(enc_tool_seq(ts) =~= Seq::<JsonVal>::empty());
    } else {
        lemma_tool_round_trip(ts[0]);
        lemma_tool_seq_round_trip(ts.drop_first());
        assert(enc_tool_seq(ts).drop_first() =~= enc_tool_seq(ts.drop_first()));
        assert(enc_tool_seq(ts)[0] == enc_tool(ts[0]));
        assert(seq![ts[0]] + ts.drop_first() =~= ts);
    }
}

pub open spec fn enc_list_tools_result(v: ListToolsResultV) -> JsonVal {
    JsonVal::Obj(seq![("tools"@, JsonVal::Arr(enc_tool_seq(v.tools)))])
}

pub open spec fn dec_list_tools_result(j: JsonVal) -> Option<ListToolsResultV> {
    match j {
        JsonVal::Obj(ms) => match lookup(ms, "tools"@) {
            Some(JsonVal::Arr(js)) => match dec_tool_seq(js) {
                Some(ts) => Some(ListToolsResultV { tools: ts }),
                None => None,
            },
            _ => None,
        },
        _ => None,
    }
}

pub fn encode_list_tools_result(v: &ListToolsResult) -> (out: Json)
    ensures
        out.deep_view() == enc_list_tools_result(v.deep_view()),
{
    let mut m: Vec<(String, Json)> = Vec::new();
    obj_push(&mut m, "tools", Json::Arr(encode_tool_seq(&v.tools)));
    let out = Json::Obj(m);
    proof {
        assert(jview_members(m@) =~= enc_list_tools_result(v.deep_view())->Obj_0);
    }
    out
}

pub fn decode_list_tools_result(j: &Json) -> (r: Option<ListToolsResult>)
    ensures
        r.deep_view() == dec_list_tools_result(j.deep_view()),
{
    let members = match j {
        Json::Obj(ms) => ms,
        _ => {
            return None;
        },
    };
    match obj_get(members, "tools") {
        Some(Json::Arr(js)) => match decode_tool_seq(js) {
            Some(ts) => Some(ListToolsResult { tools: ts }),
            None => None,
        },
        _ => None,
    }
}

/// The tools-list result survives the trip onto the wire and back.
pub broadcast proof fn lemma_list_tools_result_round_trip(v: ListToolsResultV)
    ensures
        #[trigger] dec_list_tools_result(enc_list_tools_result(v)) == Some(v),
{
    let ms = enc_list_tools_result(v)->Obj_0;
    assert(lookup(ms, "tools"@) == Some(JsonVal::Arr(enc_tool_seq(v.tools))));
    lemma_tool_seq_round_trip(v.tools);
}


// --- Resource contents ---

pub open spec fn enc_text_resource_contents(v: TextResourceContentsV) -> JsonVal {
    JsonVal::Obj(enc_text_resource_contents_members(v))
}

pub open spec fn enc_text_resource_contents_members(v: TextResourceContentsV) -> Seq<
    (Seq<char>, JsonVal),
> {
    let m = seq![("uri"@, JsonVal::Str(v.uri))];
    let m = if v.mime_type is Some {
        m.push(("mimeType"@, JsonVal::Str(v.mime_type->0)))
    } else {
        m
    };
    m.push(("text"@, JsonVal::Str(v.text)))
}

pub open spec fn dec_text_resource_contents(j: JsonVal) -> Option<TextResourceContentsV> {
    match j {
        JsonVal::Obj(ms) => match (
            dec_str_field(ms, "uri"@),
            dec_opt_str_field(ms, "mimeType"@),
            dec_str_field(ms, "text"@),
        ) {
            (Some(u), Some(mt), Some(t)) => Some(
                TextResourceContentsV { uri: u, mime_type: mt, text: t },
            ),
            _ => None,
        },
        _ => None,
    }
}

pub fn encode_text_resource_contents(v: &TextResourceContents) -> (out: Json)
    ensures
        out.deep_view() == enc_text_resource_contents(v.deep_view()),
{
    let mut m: Vec<(String, Json)> = Vec::new();
    obj_push(&mut m, "uri", Json::Str(v.uri.clone()));
    match &v.mime_type {
        Some(mt) => {
            obj_push(&mut m, "mimeType", Json::Str(mt.clone()));
        },
        None => {},
    }
    obj_push(&mut m, "text", Json::Str(v.text.clone()));
    let out = Json::Obj(m);
    proof {
        assert(jview_members(m@) =~= enc_text_resource_contents_members(v.deep_view()));
    }
    out
}

pub fn decode_text_resource_contents(j: &Json) -> (r: Option<TextResourceContents>)
    ensures
        r.deep_view() == dec_text_resource_contents(j.deep_view()),
{
    let members = match j {
        Json::Obj(ms) => ms,
        _ => {
            return None;
        },
    };
    let uri = match obj_get_str(members, "uri") {
        Some(s) => s,
        None => {
            return None;
        },
    };
    let mime_type = match obj_get_opt_str(members, "mimeType") {
        Some(mt) => mt,
        None => {
            return None;
        },
    };
    let text = match obj_get_str(members, "text") {
        Some(s) => s,
        None => {
            return None;
        },
    };
    Some(TextResourceContents { uri, mime_type, text })
}

/// Textual resource contents survive the trip onto the wire and back.
pub broadcast proof fn lemma_text_resource_contents_round_trip(v: TextResourceContentsV)
    ensures
        #[trigger] dec_text_resource_contents(enc_text_resource_contents(v)) == Some(v),
{
    broadcast use vstd::string::group_string_axioms;
    broadcast use lemma_lookup_push;

    reveal_strlit("uri");
    reveal_strlit("mimeType");
    reveal_strlit("text");
    assert("uri"@.len() == 3);
    assert("mimeType"@.len() == 8);
    assert("text"@.len() == 4);
    let base = seq![("uri"@, JsonVal::Str(v.uri))];
    assert(lookup(base, "uri"@) == Some(JsonVal::Str(v.uri)));
    assert(lookup(base, "mimeType"@) is None);
    assert(lookup(base, "text"@) is None);
}

pub open spec fn enc_blob_resource_contents(v: BlobResourceContentsV) -> JsonVal {
    JsonVal::Obj(enc_blob_resource_contents_members(v))
}

pub open spec fn enc_blob_resource_contents_members(v: BlobResourceContentsV) -> Seq<
    (Seq<char>, JsonVal),
> {
    let m = seq![("uri"@, JsonVal::Str(v.uri))];
    let m = if v.mime_type is Some {
        m.push(("mimeType"@, JsonVal::Str(v.mime_type->0)))
    } else {
        m
    };
    m.push(("blob"@, JsonVal::Str(v.blob)))
}

pub open spec fn dec_blob_resource_contents(j: JsonVal) -> Option<BlobResourceContentsV> {
    match j {
        JsonVal::Obj(ms) => match (
            dec_str_field(ms, "uri"@),
            dec_opt_str_field(ms, "mimeType"@),
            dec_str_field(ms, "blob"@),
        ) {
            (Some(u), Some(mt), Some(b)) => Some(
                BlobResourceContentsV { uri: u, mime_type: mt, blob: b },
            ),
            _ => None,
        },
        _ => None,
    }
}

pub fn encode_blob_resource_contents(v: &BlobResourceContents) -> (out: Json)
    ensures
        out.deep_view() == enc_blob_resource_contents(v.deep_view()),
{
    let mut m: Vec<(String, Json)> = Vec::new();
    obj_push(&mut m, "uri", Json::Str(v.uri.clone()));
    match &v.mime_type {
        Some(mt) => {
            obj_push(&mut m, "mimeType", Json::Str(mt.clone()));
        },
        None => {},
    }
    obj_push(&mut m, "blob", Json::Str(v.blob.clone()));
    let out = Json::Obj(m);
    proof {
        assert(jview_members(m@) =~= enc_blob_resource_contents_members(v.deep_view()));
    }
    out
}

pub fn decode_blob_resource_contents(j: &Json) -> (r: Option<BlobResourceContents>)
    ensures
        r.deep_view() == dec_blob_resource_contents(j.deep_view()),
{
    let members = match j {
        Json::Obj(ms) => ms,
        _ => {
            return None;
        },
    };
    let uri = match obj_get_str(members, "uri") {
        Some(s) => s,
        None => {
            return None;
        },
    };
    let mime_type = match obj_get_opt_str(members, "mimeType") {
        Some(mt) => mt,
        None => {
            return None;
        },
    };
    let blob = match obj_get_str(members, "blob") {
        Some(s) => s,
        None => {
            return None;
        },
    };
    Some(BlobResourceContents { uri, mime_type, blob })
}

/// Binary resource contents survive the trip onto the wire and back.
pub broadcast proof fn lemma_blob_resource_contents_round_trip(v: BlobResourceContentsV)
    ensures
        #[trigger] dec_blob_resource_contents(enc_blob_resource_contents(v)) == Some(v),
{
    broadcast use vstd::string::group_string_axioms;
    broadcast use lemma_lookup_push;

    reveal_strlit("uri");
    reveal_strlit("mimeType");
    reveal_strlit("blob");
    assert("uri"@.len() == 3);
    assert("mimeType"@.len() == 8);
    assert("blob"@.len() == 4);
    let base = seq![("uri"@, JsonVal::Str(v.uri))];
    assert(lookup(base, "uri"@) == Some(JsonVal::Str(v.uri)));
    assert(lookup(base, "mimeType"@) is None);
    assert(lookup(base, "blob"@) is None);
}

pub open spec fn enc_resource_contents(v: ResourceContentsV) -> JsonVal {
    match v {
        ResourceContentsV::Text(t) => enc_text_resource_contents(t),
        ResourceContentsV::Blob(b) => enc_blob_resource_contents(b),
    }
}

/// Resource contents are an untagged union: a value that decodes as textual
/// contents is textual; otherwise one that decodes as binary is binary.
pub open spec fn dec_resource_contents(j: JsonVal) -> Option<ResourceContentsV> {
    match dec_text_resource_contents(j) {
        Some(t) => Some(ResourceContentsV::Text(t)),
        None => match dec_blob_resource_contents(j) {
            Some(b) => Some(ResourceContentsV::Blob(b)),
            None => None,
        },
    }
}

pub fn encode_resource_contents(v: &ResourceContents) -> (out: Json)
    ensures
        out.deep_view() == enc_resource_contents(v.deep_view()),
{
    match v {
        ResourceContents::Text(t) => encode_text_resource_contents(t),
        ResourceContents::Blob(b) => encode_blob_resource_contents(b),
    }
}

pub fn decode_resource_contents(j: &Json) -> (r: Option<ResourceContents>)
    ensures
        r.deep_view() == dec_resource_contents(j.deep_view()),
{
    match decode_text_resource_contents(j) {
        Some(t) => Some(ResourceContents::Text(t)),
        None => match decode_blob_resource_contents(j) {
            Some(b) => Some(ResourceContents::Blob(b)),
            None => None,
        },
    }
}

/// Resource contents survive the trip onto the wire and back.
pub broadcast proof fn lemma_resource_contents_round_trip(v: ResourceContentsV)
    ensures
        #[trigger] dec_resource_contents(enc_resource_contents(v)) == Some(v),
{
    broadcast use vstd::string::group_string_axioms;
    broadcast use lemma_lookup_push;

    reveal_strlit("uri");
    reveal_strlit("mimeType");
    reveal_strlit("text");
    reveal_strlit("blob");
    assert("uri"@.len() == 3);
    assert("mimeType"@.len() == 8);
    assert("text"@.len() == 4);
    assert("blob"@.len() == 4);
    assert("text"@[0] == 't');
    assert("blob"@[0] == 'b');
    match v {
        ResourceContentsV::Text(t) => {
            lemma_text_resource_contents_round_trip(t);
        },
        ResourceContentsV::Blob(b) => {
            lemma_blob_resource_contents_round_trip(b);
            let base = seq![("uri"@, JsonVal::Str(b.uri))];
            assert(lookup(base, "text"@) is None);
            assert(lookup(enc_blob_resource_contents_members(b), "text"@) is None);
            assert(dec_text_resource_contents(enc_blob_resource_contents(b)) is None);
        },
    }
}

// --- Content items ---

pub open spec fn enc_content(v: ContentV) -> JsonVal {
    match v {
        ContentV::Text { text } => JsonVal::Obj(
            seq![("type"@, JsonVal::Str("text"@))].push(("text"@, JsonVal::Str(text))),
        ),
        ContentV::Image { data, mime_type } => JsonVal::Obj(
            seq![("type"@, JsonVal::Str("image"@))].push(("data"@, JsonVal::Str(data))).push(
                ("mimeType"@, JsonVal::Str(mime_type)),
            ),
        ),
        ContentV::Resource { resource } => JsonVal::Obj(
            seq![("type"@, JsonVal::Str("resource"@))].push(
                ("resource"@, enc_resource_contents(resource)),
            ),
        ),
    }
}

pub open spec fn dec_content(j: JsonVal) -> Option<ContentV> {
    match j {
        JsonVal::Obj(ms) => match dec_str_field(ms, "type"@) {
            Some(tag) => if tag == "text"@ {
                match dec_str_field(ms, "text"@) {
                    Some(t) => Some(ContentV::Text { text: t }),
                    None => None,
                }
            } else if tag == "image"@ {
                match (dec_str_field(ms, "data"@), dec_str_field(ms, "mimeType"@)) {
                    (Some(d), Some(mt)) => Some(ContentV::Image { data: d, mime_type: mt }),
                    _ => None,
                }
            } else if tag == "resource"@ {
                match lookup(ms, "resource"@) {
                    Some(rj) => match dec_resource_contents(rj) {
                        Some(rc) => Some(ContentV::Resource { resource: rc }),
                        None => None,
                    },
                    None => None,
                }
            } else {
                None
            },
            None => None,
        },
        _ => None,
    }
}

pub fn encode_content(v: &Content) -> (out: Json)
    ensures
        out.deep_view() == enc_content(v.deep_view()),
{
    let mut m: Vec<(String, Json)> = Vec::new();
    match v {
        Content::Text { text } => {
            obj_push(&mut m, "type", Json::Str("text".to_owned()));
            obj_push(&mut m, "text", Json::Str(text.clone()));
        },
        Content::Image { data, mime_type } => {
            obj_push(&mut m, "type", Json::Str("image".to_owned()));
            obj_push(&mut m, "data", Json::Str(data.clone()));
            obj_push(&mut m, "mimeType", Json::Str(mime_type.clone()));
        },
        Content::Resource { resource } => {
            obj_push(&mut m, "type", Json::Str("resource".to_owned()));
            obj_push(&mut m, "resource", encode_resource_contents(resource));
        },
    }
    let out = Json::Obj(m);
    proof {
        assert(jview_members(m@) =~= enc_content(v.deep_view())->Obj_0);
    }
    out
}

pub fn decode_content(j: &Json) -> (r: Option<Content>)
    ensures
        r.deep_view() == dec_content(j.deep_view()),
{
    let members = match j {
        Json::Obj(ms) => ms,
        _ => {
            return None;
        },
    };
    let tag = match obj_get_str(members, "type") {
        Some(s) => s,
        None => {
            return None;
        },
    };
    if str_eq(tag.as_str(), "text") {
        match obj_get_str(members, "text") {
            Some(t) => Some(Content::Text { text: t }),
            None => None,
        }
    } else if str_eq(tag.as_str(), "image") {
        let data = match obj_get_str(members, "data") {
            Some(d) => d,
            None => {
                return None;
            },
        };
        let mime_type = match obj_get_str(members, "mimeType") {
            Some(mt) => mt,
            None => {
                return None;
            },
        };
        Some(Content::Image { data, mime_type })
    } else if str_eq(tag.as_str(), "resource") {
        match obj_get(members, "resource") {
            Some(rj) => match decode_resource_contents(rj) {
                Some(rc) => Some(Content::Resource { resource: rc }),
                None => None,
            },
            None => None,
        }
    } else {
        None
    }
}

/// A content item survives the trip onto the wire and back.
pub broadcast proof fn lemma_content_round_trip(v: ContentV)
    ensures
        #[trigger] dec_content(enc_content(v)) == Some(v),
{
    broadcast use vstd::string::group_string_axioms;
    broadcast use lemma_lookup_push;

    reveal_strlit("type");
    reveal_strlit("text");
    reveal_strlit("image");
    reveal_strlit("resource");
    reveal_strlit("data");
    reveal_strlit("mimeType");
    assert("type"@.len() == 4);
    assert("text"@.len() == 4);
    assert("image"@.len() == 5);
    assert("resource"@.len() == 8);
    assert("data"@.len() == 4);
    assert("mimeType"@.len() == 8);
    assert("type"@[1] == 'y');
    assert("text"@[1] == 'e');
    assert("data"@[0] == 'd');
    assert("type"@[0] == 't');
    assert("mimeType"@[0] == 'm');
    assert("resource"@[0] == 'r');
    match v {
        ContentV::Text { text } => {
            let base = seq![("type"@, JsonVal::Str("text"@))];
            assert(lookup(base, "type"@) == Some(JsonVal::Str("text"@)));
            assert(lookup(base, "text"@) is None);
        },
        ContentV::Image { data, mime_type } => {
            let base = seq![("type"@, JsonVal::Str("image"@))];
            assert(lookup(base, "type"@) == Some(JsonVal::Str("image"@)));
            assert(lookup(base, "data"@) is None);
            assert(lookup(base, "mimeType"@) is None);
            assert(!("image"@ == "text"@));
        },
        ContentV::Resource { resource } => {
            let base = seq![("type"@, JsonVal::Str("resource"@))];
            assert(lookup(base, "type"@) == Some(JsonVal::Str("resource"@)));
            assert(lookup(base, "resource"@) is None);
            assert(!("resource"@ == "text"@));
            assert(!("resource"@ == "image"@));
            lemma_resource_contents_round_trip(resource);
        },
    }
}

pub open spec fn enc_content_seq(ts: Seq<ContentV>) -> Seq<JsonVal> {
    ts.map_values(|t: ContentV| enc_content(t))
}

pub open spec fn dec_content_seq(js: Seq<JsonVal>) -> Option<Seq<ContentV>>
    decreases js,
{
    if js.len() == 0 {
        Some(Seq::empty())
    } else {
        match (dec_content(js[0]), dec_content_seq(js.drop_first())) {
            (Some(t), Some(rest)) => Some(seq![t] + rest),
            _ => None,
        }
    }
}

pub fn encode_content_seq(ts: &Vec<Content>) -> (out: Vec<Json>)
    ensures
        crate::json::jview_seq(out@) == enc_content_seq(ts.deep_view()),
{
    let n = ts.len();
    let mut out: Vec<Json> = Vec::new();
    let mut i: usize = 0;
    proof {
        assert(crate::json::jview_seq(out@) =~= enc_content_seq(ts.deep_view().take(0)));
    }
    while i < n
        invariant
            n == ts@.len(),
            i <= n,
            out@.len() == i,
            crate::json::jview_seq(out@) == enc_content_seq(ts.deep_view().take(i as int)),
        decreases n - i,
    {
        let c = encode_content(&ts[i]);
        let ghost prev = out@;
        out.push(c);
        proof {
            assert(out@.drop_last() =~= prev);
            assert(ts.deep_view().take(i + 1).drop_last() =~= ts.deep_view().take(i as int));
            assert(crate::json::jview_seq(out@) =~= enc_content_seq(ts.deep_view().take(i + 1)));
        }
        i = i + 1;
    }
    proof {
        assert(ts.deep_view().take(n as int) =~= ts.deep_view());
    }
    out
}

pub fn decode_content_seq(js: &Vec<Json>) -> (r: Option<Vec<Content>>)
    ensures
        r.deep_view() == dec_content_seq(crate::json::jview_seq(js@)),
{
    let ghost whole = crate::json::jview_seq(js@);
    let n = js.len();
    proof {
        crate::json::lemma_jview_seq_len(js@);
        assert(whole.skip(0) =~= whole);
    }
    let mut out: Vec<Content> = Vec::new();
    let mut i: usize = 0;
    while i < n
        invariant
            n == js@.len(),
            whole == crate::json::jview_seq(js@),
            whole.len() == n,
            i <= n,
            out@.len() == i,
            dec_content_seq(whole) == (match dec_content_seq(whole.skip(i as int)) {
                Some(rest) => Some(out.deep_view() + rest),
                None => None,
            }),
        decreases n - i,
    {
        proof {
            crate::json::lemma_jview_seq_index(js@, i as int);
            assert(whole.skip(i as int)[0] == whole[i as int]);
        }
        let t = match decode_content(&js[i]) {
            Some(t) => t,
            None => {
                proof {
                    assert(dec_content(whole.skip(i as int)[0]) is None);
                    assert(dec_content_seq(whole.skip(i as int)) is None);
                }
                return None;
            },
        };
        let ghost prev = out@;
        let ghost prevdv = out.deep_view();
        out.push(t);
        proof {
            assert(out@.drop_last() =~= prev);
            assert(out.deep_view() =~= prevdv.push(t.deep_view()));
            assert(whole.skip(i as int).drop_first() =~= whole.skip(i + 1));
            assert(dec_content(whole.skip(i as int)[0]) == Some(t.deep_view()));
            match dec_content_seq(whole.skip(i + 1)) {
                Some(rest) => {
                    assert(dec_content_seq(whole.skip(i as int)) == Some(
                        seq![t.deep_view()] + rest,
                    ));
                    assert(prevdv + (seq![t.deep_view()] + rest) =~= out.deep_view() + rest);
                },
                None => {
                    assert(dec_content_seq(whole.skip(i as int)) is None);
                },
            }
        }
        i = i + 1;
    }
    proof {
        assert(whole.skip(n as int) =~= Seq::<JsonVal>::empty());
        assert(out.deep_view() + Seq::<ContentV>::empty() =~= out.deep_view());
    }
    Some(out)
}

/// A sequence of such records survives the trip onto the wire and back.
pub broadcast proof fn lemma_content_seq_round_trip(ts: Seq<ContentV>)
    ensures
        #[trigger] dec_content_seq(enc_content_seq(ts)) == Some(ts),
    decreases ts,
{
    if ts.len() == 0 {
        assert(enc_content_seq(ts) =~= Seq::<JsonVal>::empty());
    } else {
        lemma_content_round_trip(ts[0]);
        lemma_content_seq_round_trip(ts.drop_first());
        assert(enc_content_seq(ts).drop_first() =~= enc_content_seq(ts.drop_first()));
        assert(enc_content_seq(ts)[0] == enc_content(ts[0]));
        assert(seq![ts[0]] + ts.drop_first() =~= ts);
    }
}

pub open spec fn enc_resource_contents_seq(ts: Seq<ResourceContentsV>) -> Seq<JsonVal> {
    ts.map_values(|t: ResourceContentsV| enc_resource_contents(t))
}

pub open spec fn dec_resource_contents_seq(js: Seq<JsonVal>) -> Option<Seq<ResourceContentsV>>
    decreases js,
{
    if js.len() == 0 {
        Some(Seq::empty())
    } else {
        match (dec_resource_contents(js[0]), dec_resource_contents_seq(js.drop_first())) {
            (Some(t), Some(rest)) => Some(seq![t] + rest),
            _ => None,
        }
    }
}

pub fn encode_resource_contents_seq(ts: &Vec<ResourceContents>) -> (out: Vec<Json>)
    ensures
        crate::json::jview_seq(out@) == enc_resource_contents_seq(ts.deep_view()),
{
    let n = ts.len();
    let mut out: Vec<Json> = Vec::new();
    let mut i: usize = 0;
    proof {
        assert(crate::json::jview_seq(out@) =~= enc_resource_contents_seq(ts.deep_view().take(0)));
    }
    while i < n
        invariant
            n == ts@.len(),
            i <= n,
            out@.len() == i,
            crate::json::jview_seq(out@) == enc_resource_contents_seq(ts.deep_view().take(i as int)),
        decreases n - i,
    {
        let c = encode_resource_contents(&ts[i]);
        let ghost prev = out@;
        out.push(c);
        proof {
            assert(out@.drop_last() =~= prev);
            assert(ts.deep_view().take(i + 1).drop_last() =~= ts.deep_view().take(i as int));
            assert(crate::json::jview_seq(out@) =~= enc_resource_contents_seq(ts.deep_view().take(i + 1)));
        }
        i = i + 1;
    }
    proof {
        assert(ts.deep_view().take(n as int) =~= ts.deep_view());
    }
    out
}

pub fn decode_resource_contents_seq(js: &Vec<Json>) -> (r: Option<Vec<ResourceContents>>)
    ensures
        r.deep_view() == dec_resource_contents_seq(crate::json::jview_seq(js@)),
{
    let ghost whole = crate::json::jview_seq(js@);
    let n = js.len();
    proof {
        crate::json::lemma_jview_seq_len(js@);
        assert(whole.skip(0) =~= whole);
    }
    let mut out: Vec<ResourceContents> = Vec::new();
    let mut i: usize = 0;
    while i < n
        invariant
            n == js@.len(),
            whole == crate::json::jview_seq(js@),
            whole.len() == n,
            i <= n,
            out@.len() == i,
            dec_resource_contents_seq(whole) == (match dec_resource_contents_seq(whole.skip(i as int)) {
                Some(rest) => Some(out.deep_view() + rest),
                None => None,
            }),
        decreases n - i,
    {
        proof {
            crate::json::lemma_jview_seq_index(js@, i as int);
            assert(whole.skip(i as int)[0] == whole[i as int]);
        }
        let t = match decode_resource_contents(&js[i]) {
            Some(t) => t,
            None => {
                proof {
                    assert(dec_resource_contents(whole.skip(i as int)[0]) is None);
                    assert(dec_resource_contents_seq(whole.skip(i as int)) is None);
                }
                return None;
            },
        };
        let ghost prev = out@;
        let ghost prevdv = out.deep_view();
        out.push(t);
        proof {
            assert(out@.drop_last() =~= prev);
            assert(out.deep_view() =~= prevdv.push(t.deep_view()));
            assert(whole.skip(i as int).drop_first() =~= whole.skip(i + 1));
            assert(dec_resource_contents(whole.skip(i as int)[0]) == Some(t.deep_view()));
            match dec_resource_contents_seq(whole.skip(i + 1)) {
                Some(rest) => {
                    assert(dec_resource_contents_seq(whole.skip(i as int)) == Some(
                        seq![t.deep_view()] + rest,
                    ));
                    assert(prevdv + (seq![t.deep_view()] + rest) =~= out.deep_view() + rest);
                },
                None => {
                    assert(dec_resource_contents_seq(whole.skip(i as int)) is None);
                },
            }
        }
        i = i + 1;
    }
    proof {
        assert(whole.skip(n as int) =~= Seq::<JsonVal>::empty());
        assert(out.deep_view() + Seq::<ResourceContentsV>::empty() =~= out.deep_view());
    }
    Some(out)
}

/// A sequence of such records survives the trip onto the wire and back.
pub broadcast proof fn lemma_resource_contents_seq_round_trip(ts: Seq<ResourceContentsV>)
    ensures
        #[trigger] dec_resource_contents_seq(enc_resource_contents_seq(ts)) == Some(ts),
    decreases ts,
{
    if ts.len() == 0 {
        assert(enc_resource_contents_seq(ts) =~= Seq::<JsonVal>::empty());
    } else {
        lemma_resource_contents_round_trip(ts[0]);
        lemma_resource_contents_seq_round_trip(ts.drop_first());
        assert(enc_resource_contents_seq(ts).drop_first() =~= enc_resource_contents_seq(ts.drop_first()));
        assert(enc_resource_contents_seq(ts)[0] == enc_resource_contents(ts[0]));
        assert(seq![ts[0]] + ts.drop_first() =~= ts);
    }
}



// --- Tool-call results ---

pub open spec fn enc_call_tool_result(v: CallToolResultV) -> JsonVal {
    JsonVal::Obj(
        seq![("content"@, JsonVal::Arr(enc_content_seq(v.content)))].push(
            ("isError"@, JsonVal::Bool(v.is_error)),
        ),
    )
}

/// An absent error flag reads as false.
pub open spec fn dec_call_tool_result(j: JsonVal) -> Option<CallToolResultV> {
    match j {
        JsonVal::Obj(ms) => match lookup(ms, "content"@) {
            Some(JsonVal::Arr(js)) => match dec_content_seq(js) {
                Some(cs) => match lookup(ms, "isError"@) {
                    None => Some(CallToolResultV { content: cs, is_error: false }),
                    Some(JsonVal::Bool(b)) => Some(CallToolResultV { content: cs, is_error: b }),
                    Some(_) => None,
                },
                None => None,
            },
            _ => None,
        },
        _ => None,
    }
}

pub fn encode_call_tool_result(v: &CallToolResult) -> (out: Json)
    ensures
        out.deep_view() == enc_call_tool_result(v.deep_view()),
{
    let mut m: Vec<(String, Json)> = Vec::new();
    obj_push(&mut m, "content", Json::Arr(encode_content_seq(&v.content)));
    obj_push(&mut m, "isError", Json::Bool(v.is_error));
    let out = Json::Obj(m);
    proof {
        assert(jview_members(m@) =~= enc_call_tool_result(v.deep_view())->Obj_0);
    }
    out
}

pub fn decode_call_tool_result(j: &Json) -> (r: Option<CallToolResult>)
    ensures
        r.deep_view() == dec_call_tool_result(j.deep_view()),
{
    let members = match j {
        Json::Obj(ms) => ms,
        _ => {
            return None;
        },
    };
    let content = match obj_get(members, "content") {
        Some(Json::Arr(js)) => match decode_content_seq(js) {
            Some(cs) => cs,
            None => {
                return None;
            },
        },
        _ => {
            return None;
        },
    };
    let is_error = match obj_get(members, "isError") {
        None => false,
        Some(Json::Bool(b)) => *b,
        Some(_) => {
            return None;
        },
    };
    Some(CallToolResult { content, is_error })
}

/// A tool-call result survives the trip onto the wire and back.
pub broadcast proof fn lemma_call_tool_result_round_trip(v: CallToolResultV)
    ensures
        #[trigger] dec_call_tool_result(enc_call_tool_result(v)) == Some(v),
{
    broadcast use vstd::string::group_string_axioms;
    broadcast use lemma_lookup_push;

    reveal_strlit("content");
    reveal_strlit("isError");
    assert("content"@.len() == 7);
    assert("isError"@.len() == 7);
    assert("content"@[0] == 'c');
    assert("isError"@[0] == 'i');
    let base = seq![("content"@, JsonVal::Arr(enc_content_seq(v.content)))];
    assert(lookup(base, "content"@) == Some(JsonVal::Arr(enc_content_seq(v.content))));
    assert(lookup(base, "isError"@) is None);
    lemma_content_seq_round_trip(v.content);
}

// --- Resources ---

pub open spec fn enc_resource(v: ResourceV) -> JsonVal {
    JsonVal::Obj(enc_resource_members(v))
}

pub open spec fn enc_resource_members(v: ResourceV) -> Seq<(Seq<char>, JsonVal)> {
    let m = seq![("uri"@, JsonVal::Str(v.uri))].push(("name"@, JsonVal::Str(v.name)));
    let m = if v.description is Some {
        m.push(("description"@, JsonVal::Str(v.description->0)))
    } else {
        m
    };
    if v.mime_type is Some {
        m.push(("mimeType"@, JsonVal::Str(v.mime_type->0)))
    } else {
        m
    }
}

pub open spec fn dec_resource(j: JsonVal) -> Option<ResourceV> {
    match j {
        JsonVal::Obj(ms) => match (
            dec_str_field(ms, "uri"@),
            dec_str_field(ms, "name"@),
            dec_opt_str_field(ms, "description"@),
            dec_opt_str_field(ms, "mimeType"@),
        ) {
            (Some(u), Some(n), Some(d), Some(mt)) => Some(
                ResourceV { uri: u, name: n, description: d, mime_type: mt },
            ),
            _ => None,
        },
        _ => None,
    }
}

pub fn encode_resource(v: &Resource) -> (out: Json)
    ensures
        out.deep_view() == enc_resource(v.deep_view()),
{
    let mut m: Vec<(String, Json)> = Vec::new();
    obj_push(&mut m, "uri", Json::Str(v.uri.clone()));
    obj_push(&mut m, "name", Json::Str(v.name.clone()));
    match &v.description {
        Some(d) => {
            obj_push(&mut m, "description", Json::Str(d.clone()));
        },
        None => {},
    }
    match &v.mime_type {
        Some(mt) => {
            obj_push(&mut m, "mimeType", Json::Str(mt.clone()));
        },
        None => {},
    }
    let out = Json::Obj(m);
    proof {
        assert(jview_members(m@) =~= enc_resource_members(v.deep_view()));
    }
    out
}

pub fn decode_resource(j: &Json) -> (r: Option<Resource>)
    ensures
        r.deep_view() == dec_resource(j.deep_view()),
{
    let members = match j {
        Json::Obj(ms) => ms,
        _ => {
            return None;
        },
    };
    let uri = match obj_get_str(members, "uri") {
        Some(s) => s,
        None => {
            return None;
        },
    };
    let name = match obj_get_str(members, "name") {
        Some(s) => s,
        None => {
            return None;
        },
    };
    let description = match obj_get_opt_str(members, "description") {
        Some(d) => d,
        None => {
            return None;
        },
    };
    let mime_type = match obj_get_opt_str(members, "mimeType") {
        Some(mt) => mt,
        None => {
            return None;
        },
    };
    Some(Resource { uri, name, description, mime_type })
}

/// A resource record survives the trip onto the wire and back.
pub broadcast proof fn lemma_resource_round_trip(v: ResourceV)
    ensures
        #[trigger] dec_resource(enc_resource(v)) == Some(v),
{
    broadcast use vstd::string::group_string_axioms;
    broadcast use lemma_lookup_push;

    reveal_strlit("uri");
    reveal_strlit("name");
    reveal_strlit("description");
    reveal_strlit("mimeType");
    assert("uri"@.len() == 3);
    assert("name"@.len() == 4);
    assert("description"@.len() == 11);
    assert("mimeType"@.len() == 8);
    let base = seq![("uri"@, JsonVal::Str(v.uri))];
    assert(lookup(base, "uri"@) == Some(JsonVal::Str(v.uri)));
    assert(lookup(base, "name"@) is None);
    assert(lookup(base, "description"@) is None);
    assert(lookup(base, "mimeType"@) is None);
}

pub open spec fn enc_read_resource_result(v: ReadResourceResultV) -> JsonVal {
    JsonVal::Obj(seq![("contents"@, JsonVal::Arr(enc_resource_contents_seq(v.contents)))])
}

pub open spec fn dec_read_resource_result(j: JsonVal) -> Option<ReadResourceResultV> {
    match j {
        JsonVal::Obj(ms) => match lookup(ms, "contents"@) {
            Some(JsonVal::Arr(js)) => match dec_resource_contents_seq(js) {
                Some(cs) => Some(ReadResourceResultV { contents: cs }),
                None => None,
            },
            _ => None,
        },
        _ => None,
    }
}

pub fn encode_read_resource_result(v: &ReadResourceResult) -> (out: Json)
    ensures
        out.deep_view() == enc_read_resource_result(v.deep_view()),
{
    let mut m: Vec<(String, Json)> = Vec::new();
    obj_push(&mut m, "contents", Json::Arr(encode_resource_contents_seq(&v.contents)));
    let out = Json::Obj(m);
    proof {
        assert(jview_members(m@) =~= enc_read_resource_result(v.deep_view())->Obj_0);
    }
    out
}

pub fn decode_read_resource_result(j: &Json) -> (r: Option<ReadResourceResult>)
    ensures
        r.deep_view() == dec_read_resource_result(j.deep_view()),
{
    let members = match j {
        Json::Obj(ms) => ms,
        _ => {
            return None;
        },
    };
    match obj_get(members, "contents") {
        Some(Json::Arr(js)) => match decode_resource_contents_seq(js) {
            Some(cs) => Some(ReadResourceResult { contents: cs }),
            None => None,
        },
        _ => None,
    }
}

/// A resource-read result survives the trip onto the wire and back.
pub broadcast proof fn lemma_read_resource_result_round_trip(v: ReadResourceResultV)
    ensures
        #[trigger] dec_read_resource_result(enc_read_resource_result(v)) == Some(v),
{
    let ms = enc_read_resource_result(v)->Obj_0;
    assert(lookup(ms, "contents"@) == Some(JsonVal::Arr(enc_resource_contents_seq(v.contents))));
    lemma_resource_contents_seq_round_trip(v.contents);
}

// --- Prompts ---

pub open spec fn enc_prompt_argument(v: PromptArgumentV) -> JsonVal {
    JsonVal::Obj(enc_prompt_argument_members(v))
}

pub open spec fn enc_prompt_argument_members(v: PromptArgumentV) -> Seq<(Seq<char>, JsonVal)> {
    let m = seq![("name"@, JsonVal::Str(v.name))];
    let m = if v.description is Some {
        m.push(("description"@, JsonVal::Str(v.description->0)))
    } else {
        m
    };
    if v.required is Some {
        m.push(("required"@, JsonVal::Bool(v.required->0)))
    } else {
        m
    }
}

pub open spec fn dec_prompt_argument(j: JsonVal) -> Option<PromptArgumentV> {
    match j {
        JsonVal::Obj(ms) => match (
            dec_str_field(ms, "name"@),
            dec_opt_str_field(ms, "description"@),
            dec_opt_bool_field(ms, "required"@),
        ) {
            (Some(n), Some(d), Some(req)) => Some(
                PromptArgumentV { name: n, description: d, required: req },
            ),
            _ => None,
        },
        _ => None,
    }
}

pub fn encode_prompt_argument(v: &PromptArgument) -> (out: Json)
    ensures
        out.deep_view() == enc_prompt_argument(v.deep_view()),
{
    let mut m: Vec<(String, Json)> = Vec::new();
    obj_push(&mut m, "name", Json::Str(v.name.clone()));
    match &v.description {
        Some(d) => {
            obj_push(&mut m, "description", Json::Str(d.clone()));
        },
        None => {},
    }
    match &v.required {
        Some(b) => {
            obj_push(&mut m, "required", Json::Bool(*b));
        },
        None => {},
    }
    let out = Json::Obj(m);
    proof {
        assert(jview_members(m@) =~= enc_prompt_argument_members(v.deep_view()));
    }
    out
}

pub fn decode_prompt_argument(j: &Json) -> (r: Option<PromptArgument>)
    ensures
        r.deep_view() == dec_prompt_argument(j.deep_view()),
{
    let members = match j {
        Json::Obj(ms) => ms,
        _ => {
            return None;
        },
    };
    let name = match obj_get_str(members, "name") {
        Some(s) => s,
        None => {
            return None;
        },
    };
    let description = match obj_get_opt_str(members, "description") {
        Some(d) => d,
        None => {
            return None;
        },
    };
    let required = match obj_get_opt_bool(members, "required") {
        Some(b) => b,
        None => {
            return None;
        },
    };
    Some(PromptArgument { name, description, required })
}

/// A prompt argument survives the trip onto the wire and back.
pub broadcast proof fn lemma_prompt_argument_round_trip(v: PromptArgumentV)
    ensures
        #[trigger] dec_prompt_argument(enc_prompt_argument(v)) == Some(v),
{
    broadcast use vstd::string::group_string_axioms;
    broadcast use lemma_lookup_push;

    reveal_strlit("name");
    reveal_strlit("description");
    reveal_strlit("required");
    assert("name"@.len() == 4);
    assert("description"@.len() == 11);
    assert("required"@.len() == 8);
    let base = seq![("name"@, JsonVal::Str(v.name))];
    assert(lookup(base, "name"@) == Some(JsonVal::Str(v.name)));
    assert(lookup(base, "description"@) is None);
    assert(lookup(base, "required"@) is None);
}
pub open spec fn enc_prompt_argument_seq(ts: Seq<PromptArgumentV>) -> Seq<JsonVal> {
    ts.map_values(|t: PromptArgumentV| enc_prompt_argument(t))
}

pub open spec fn dec_prompt_argument_seq(js: Seq<JsonVal>) -> Option<Seq<PromptArgumentV>>
    decreases js,
{
    if js.len() == 0 {
        Some(Seq::empty())
    } else {
        match (dec_prompt_argument(js[0]), dec_prompt_argument_seq(js.drop_first())) {
            (Some(t), Some(rest)) => Some(seq![t] + rest),
            _ => None,
        }
    }
}

pub fn encode_prompt_argument_seq(ts: &Vec<PromptArgument>) -> (out: Vec<Json>)
    ensures
        crate::json::jview_seq(out@) == enc_prompt_argument_seq(ts.deep_view()),
{
    let n = ts.len();
    let mut out: Vec<Json> = Vec::new();
    let mut i: usize = 0;
    proof {
        assert(crate::json::jview_seq(out@) =~= enc_prompt_argument_seq(ts.deep_view().take(0)));
    }
    while i < n
        invariant
            n == ts@.len(),
            i <= n,
            out@.len() == i,
            crate::json::jview_seq(out@) == enc_prompt_argument_seq(ts.deep_view().take(i as int)),
        decreases n - i,
    {
        let c = encode_prompt_argument(&ts[i]);
        let ghost prev = out@;
        out.push(c);
        proof {
            assert(out@.drop_last() =~= prev);
            assert(ts.deep_view().take(i + 1).drop_last() =~= ts.deep_view().take(i as int));
            assert(crate::json::jview_seq(out@) =~= enc_prompt_argument_seq(ts.deep_view().take(i + 1)));
        }
        i = i + 1;
    }
    proof {
        assert(ts.deep_view().take(n as int) =~= ts.deep_view());
    }
    out
}

pub fn decode_prompt_argument_seq(js: &Vec<Json>) -> (r: Option<Vec<PromptArgument>>)
    ensures
        r.deep_view() == dec_prompt_argument_seq(crate::json::jview_seq(js@)),
{
    let ghost whole = crate::json::jview_seq(js@);
    let n = js.len();
    proof {
        crate::json::lemma_jview_seq_len(js@);
        assert(whole.skip(0) =~= whole);
    }
    let mut out: Vec<PromptArgument> = Vec::new();
    let mut i: usize = 0;
    while i < n
        invariant
            n == js@.len(),
            whole == crate::json::jview_seq(js@),
            whole.len() == n,
            i <= n,
            out@.len() == i,
            dec_prompt_argument_seq(whole) == (match dec_prompt_argument_seq(whole.skip(i as int)) {
                Some(rest) => Some(out.deep_view() + rest),
                None => None,
            }),
        decreases n - i,
    {
        proof {
            crate::json::lemma_jview_seq_index(js@, i as int);
            assert(whole.skip(i as int)[0] == whole[i as int]);
        }
        let t = match decode_prompt_argument(&js[i]) {
            Some(t) => t,
            None => {
                proof {
                    assert(dec_prompt_argument(whole.skip(i as int)[0]) is None);
                    assert(dec_prompt_argument_seq(whole.skip(i as int)) is None);
                }
                return None;
            },
        };
        let ghost prev = out@;
        let ghost prevdv = out.deep_view();
        out.push(t);
        proof {
            assert(out@.drop_last() =~= prev);
            assert(out.deep_view() =~= prevdv.push(t.deep_view()));
            assert(whole.skip(i as int).drop_first() =~= whole.skip(i + 1));
            assert(dec_prompt_argument(whole.skip(i as int)[0]) == Some(t.deep_view()));
            match dec_prompt_argument_seq(whole.skip(i + 1)) {
                Some(rest) => {
                    assert(dec_prompt_argument_seq(whole.skip(i as int)) == Some(
                        seq![t.deep_view()] + rest,
                    ));
                    assert(prevdv + (seq![t.deep_view()] + rest) =~= out.deep_view() + rest);
                },
                None => {
                    assert(dec_prompt_argument_seq(whole.skip(i as int)) is None);
                },
            }
        }
        i = i + 1;
    }
    proof {
        assert(whole.skip(n as int) =~= Seq::<JsonVal>::empty());
        assert(out.deep_view() + Seq::<PromptArgumentV>::empty() =~= out.deep_view());
    }
    Some(out)
}

/// A sequence of such records survives the trip onto the wire and back.
pub broadcast proof fn lemma_prompt_argument_seq_round_trip(ts: Seq<PromptArgumentV>)
    ensures
        #[trigger] dec_prompt_argument_seq(enc_prompt_argument_seq(ts)) == Some(ts),
    decreases ts,
{
    if ts.len() == 0 {
        assert(enc_prompt_argument_seq(ts) =~= Seq::<JsonVal>::empty());
    } else {
        lemma_prompt_argument_round_trip(ts[0]);
        lemma_prompt_argument_seq_round_trip(ts.drop_first());
        assert(enc_prompt_argument_seq(ts).drop_first() =~= enc_prompt_argument_seq(ts.drop_first()));
        assert(enc_prompt_argument_seq(ts)[0] == enc_prompt_argument(ts[0]));
        assert(seq![ts[0]] + ts.drop_first() =~= ts);
    }
}


pub open spec fn enc_prompt(v: PromptV) -> JsonVal {
    JsonVal::Obj(enc_prompt_members(v))
}

pub open spec fn enc_prompt_members(v: PromptV) -> Seq<(Seq<char>, JsonVal)> {
    let m = seq![("name"@, JsonVal::Str(v.name))];
    let m = if v.description is Some {
        m.push(("description"@, JsonVal::Str(v.description->0)))
    } else {
        m
    };
    if v.arguments is Some {
        m.push(("arguments"@, JsonVal::Arr(enc_prompt_argument_seq(v.arguments->0))))
    } else {
        m
    }
}

pub open spec fn dec_prompt(j: JsonVal) -> Option<PromptV> {
    match j {
        JsonVal::Obj(ms) => match (dec_str_field(ms, "name"@), dec_opt_str_field(ms, "description"@)) {
            (Some(n), Some(d)) => match lookup(ms, "arguments"@) {
                None => Some(PromptV { name: n, description: d, arguments: None }),
                Some(JsonVal::Arr(js)) => match dec_prompt_argument_seq(js) {
                    Some(args) => Some(PromptV { name: n, description: d, arguments: Some(args) }),
                    None => None,
                },
                Some(_) => None,
            },
            _ => None,
        },
        _ => None,
    }
}

pub fn encode_prompt(v: &Prompt) -> (out: Json)
    ensures
        out.deep_view() == enc_prompt(v.deep_view()),
{
    let mut m: Vec<(String, Json)> = Vec::new();
    obj_push(&mut m, "name", Json::Str(v.name.clone()));
    match &v.description {
        Some(d) => {
            obj_push(&mut m, "description", Json::Str(d.clone()));
        },
        None => {},
    }
    match &v.arguments {
        Some(args) => {
            obj_push(&mut m, "arguments", Json::Arr(encode_prompt_argument_seq(args)));
        },
        None => {},
    }
    let out = Json::Obj(m);
    proof {
        assert(jview_members(m@) =~= enc_prompt_members(v.deep_view()));
    }
    out
}

pub fn decode_prompt(j: &Json) -> (r: Option<Prompt>)
    ensures
        r.deep_view() == dec_prompt(j.deep_view()),
{
    let members = match j {
        Json::Obj(ms) => ms,
        _ => {
            return None;
        },
    };
    let name = match obj_get_str(members, "name") {
        Some(s) => s,
        None => {
            return None;
        },
    };
    let description = match obj_get_opt_str(members, "description") {
        Some(d) => d,
        None => {
            return None;
        },
    };
    let arguments = match obj_get(members, "arguments") {
        None => None,
        Some(Json::Arr(js)) => match decode_prompt_argument_seq(js) {
            Some(args) => Some(args),
            None => {
                return None;
            },
        },
        Some(_) => {
            return None;
        },
    };
    Some(Prompt { name, description, arguments })
}

/// A prompt record survives the trip onto the wire and back.
pub broadcast proof fn lemma_prompt_round_trip(v: PromptV)
    ensures
        #[trigger] dec_prompt(enc_prompt(v)) == Some(v),
{
    broadcast use vstd::string::group_string_axioms;
    broadcast use lemma_lookup_push;

    reveal_strlit("name");
    reveal_strlit("description");
    reveal_strlit("arguments");
    assert("name"@.len() == 4);
    assert("description"@.len() == 11);
    assert("arguments"@.len() == 9);
    let base = seq![("name"@, JsonVal::Str(v.name))];
    assert(lookup(base, "name"@) == Some(JsonVal::Str(v.name)));
    assert(lookup(base, "description"@) is None);
    assert(lookup(base, "arguments"@) is None);
    match v.arguments {
        Some(args) => {
            lemma_prompt_argument_seq_round_trip(args);
        },
        None => {},
    }
}

pub open spec fn enc_prompt_message(v: PromptMessageV) -> JsonVal {
    JsonVal::Obj(
        seq![("role"@, JsonVal::Str(v.role))].push(("content"@, enc_content(v.content))),
    )
}

pub open spec fn dec_prompt_message(j: JsonVal) -> Option<PromptMessageV> {
    match j {
        JsonVal::Obj(ms) => match (dec_str_field(ms, "role"@), lookup(ms, "content"@)) {
            (Some(role), Some(cj)) => match dec_content(cj) {
                Some(c) => Some(PromptMessageV { role, content: c }),
                None => None,
            },
            _ => None,
        },
        _ => None,
    }
}

pub fn encode_prompt_message(v: &PromptMessage) -> (out: Json)
    ensures
        out.deep_view() == enc_prompt_message(v.deep_view()),
{
    let mut m: Vec<(String, Json)> = Vec::new();
    obj_push(&mut m, "role", Json::Str(v.role.clone()));
    obj_push(&mut m, "content", encode_content(&v.content));
    let out = Json::Obj(m);
    proof {
        assert(jview_members(m@) =~= enc_prompt_message(v.deep_view())->Obj_0);
    }
    out
}

pub fn decode_prompt_message(j: &Json) -> (r: Option<PromptMessage>)
    ensures
        r.deep_view() == dec_prompt_message(j.deep_view()),
{
    let members = match j {
        Json::Obj(ms) => ms,
        _ => {
            return None;
        },
    };
    let role = match obj_get_str(members, "role") {
        Some(s) => s,
        None => {
            return None;
        },
    };
    let content = match obj_get(members, "content") {
        Some(cj) => match decode_content(cj) {
            Some(c) => c,
            None => {
                return None;
            },
        },
        None => {
            return None;
        },
    };
    Some(PromptMessage { role, content })
}

/// A prompt message survives the trip onto the wire and back.
pub broadcast proof fn lemma_prompt_message_round_trip(v: PromptMessageV)
    ensures
        #[trigger] dec_prompt_message(enc_prompt_message(v)) == Some(v),
{
    broadcast use vstd::string::group_string_axioms;
    broadcast use lemma_lookup_push;

    reveal_strlit("role");
    reveal_strlit("content");
    assert("role"@.len() == 4);
    assert("content"@.len() == 7);
    let base = seq![("role"@, JsonVal::Str(v.role))];
    assert(lookup(base, "role"@) == Some(JsonVal::Str(v.role)));
    assert(lookup(base, "content"@) is None);
    lemma_content_round_trip(v.content);
}
pub open spec fn enc_prompt_seq(ts: Seq<PromptV>) -> Seq<JsonVal> {
    ts.map_values(|t: PromptV| enc_prompt(t))
}

pub open spec fn dec_prompt_seq(js: Seq<JsonVal>) -> Option<Seq<PromptV>>
    decreases js,
{
    if js.len() == 0 {
        Some(Seq::empty())
    } else {
        match (dec_prompt(js[0]), dec_prompt_seq(js.drop_first())) {
            (Some(t), Some(rest)) => Some(seq![t] + rest),
            _ => None,
        }
    }
}

pub fn encode_prompt_seq(ts: &Vec<Prompt>) -> (out: Vec<Json>)
    ensures
        crate::json::jview_seq(out@) == enc_prompt_seq(ts.deep_view()),
{
    let n = ts.len();
    let mut out: Vec<Json> = Vec::new();
    let mut i: usize = 0;
    proof {
        assert(crate::json::jview_seq(out@) =~= enc_prompt_seq(ts.deep_view().take(0)));
    }
    while i < n
        invariant
            n == ts@.len(),
            i <= n,
            out@.len() == i,
            crate::json::jview_seq(out@) == enc_prompt_seq(ts.deep_view().take(i as int)),
        decreases n - i,
    {
        let c = encode_prompt(&ts[i]);
        let ghost prev = out@;
        out.push(c);
        proof {
            assert(out@.drop_last() =~= prev);
            assert(ts.deep_view().take(i + 1).drop_last() =~= ts.deep_view().take(i as int));
            assert(crate::json::jview_seq(out@) =~= enc_prompt_seq(ts.deep_view().take(i + 1)));
        }
        i = i + 1;
    }
    proof {
        assert(ts.deep_view().take(n as int) =~= ts.deep_view());
    }
    out
}

pub fn decode_prompt_seq(js: &Vec<Json>) -> (r: Option<Vec<Prompt>>)
    ensures
        r.deep_view() == dec_prompt_seq(crate::json::jview_seq(js@)),
{
    let ghost whole = crate::json::jview_seq(js@);
    let n = js.len();
    proof {
        crate::json::lemma_jview_seq_len(js@);
        assert(whole.skip(0) =~= whole);
    }
    let mut out: Vec<Prompt> = Vec::new();
    let mut i: usize = 0;
    while i < n
        invariant
            n == js@.len(),
            whole == crate::json::jview_seq(js@),
            whole.len() == n,
            i <= n,
            out@.len() == i,
            dec_prompt_seq(whole) == (match dec_prompt_seq(whole.skip(i as int)) {
                Some(rest) => Some(out.deep_view() + rest),
                None => None,
            }),
        decreases n - i,
    {
        proof {
            crate::json::lemma_jview_seq_index(js@, i as int);
            assert(whole.skip(i as int)[0] == whole[i as int]);
        }
        let t = match decode_prompt(&js[i]) {
            Some(t) => t,
            None => {
                proof {
                    assert(dec_prompt(whole.skip(i as int)[0]) is None);
                    assert(dec_prompt_seq(whole.skip(i as int)) is None);
                }
                return None;
            },
        };
        let ghost prev = out@;
        let ghost prevdv = out.deep_view();
        out.push(t);
        proof {
            assert(out@.drop_last() =~= prev);
            assert(out.deep_view() =~= prevdv.push(t.deep_view()));
            assert(whole.skip(i as int).drop_first() =~= whole.skip(i + 1));
            assert(dec_prompt(whole.skip(i as int)[0]) == Some(t.deep_view()));
            match dec_prompt_seq(whole.skip(i + 1)) {
                Some(rest) => {
                    assert(dec_prompt_seq(whole.skip(i as int)) == Some(
                        seq![t.deep_view()] + rest,
                    ));
                    assert(prevdv + (seq![t.deep_view()] + rest) =~= out.deep_view() + rest);
                },
                None => {
                    assert(dec_prompt_seq(whole.skip(i as int)) is None);
                },
            }
        }
        i = i + 1;
    }
    proof {
        assert(whole.skip(n as int) =~= Seq::<JsonVal>::empty());
        assert(out.deep_view() + Seq::<PromptV>::empty() =~= out.deep_view());
    }
    Some(out)
}

/// A sequence of such records survives the trip onto the wire and back.
pub broadcast proof fn lemma_prompt_seq_round_trip(ts: Seq<PromptV>)
    ensures
        #[trigger] dec_prompt_seq(enc_prompt_seq(ts)) == Some(ts),
    decreases ts,
{
    if ts.len() == 0 {
        assert(enc_prompt_seq(ts) =~= Seq::<JsonVal>::empty());
    } else {
        lemma_prompt_round_trip(ts[0]);
        lemma_prompt_seq_round_trip(ts.drop_first());
        assert(enc_prompt_seq(ts).drop_first() =~= enc_prompt_seq(ts.drop_first()));
        assert(enc_prompt_seq(ts)[0] == enc_prompt(ts[0]));
        assert(seq![ts[0]] + ts.drop_first() =~= ts);
    }
}

pub open spec fn enc_prompt_message_seq(ts: Seq<PromptMessageV>) -> Seq<JsonVal> {
    ts.map_values(|t: PromptMessageV| enc_prompt_message(t))
}

pub open spec fn dec_prompt_message_seq(js: Seq<JsonVal>) -> Option<Seq<PromptMessageV>>
    decreases js,
{
    if js.len() == 0 {
        Some(Seq::empty())
    } else {
        match (dec_prompt_message(js[0]), dec_prompt_message_seq(js.drop_first())) {
            (Some(t), Some(rest)) => Some(seq![t] + rest),
            _ => None,
        }
    }
}

pub fn encode_prompt_message_seq(ts: &Vec<PromptMessage>) -> (out: Vec<Json>)
    ensures
        crate::json::jview_seq(out@) == enc_prompt_message_seq(ts.deep_view()),
{
    let n = ts.len();
    let mut out: Vec<Json> = Vec::new();
    let mut i: usize = 0;
    proof {
        assert(crate::json::jview_seq(out@) =~= enc_prompt_message_seq(ts.deep_view().take(0)));
    }
    while i < n
        invariant
            n == ts@.len(),
            i <= n,
            out@.len() == i,
            crate::json::jview_seq(out@) == enc_prompt_message_seq(ts.deep_view().take(i as int)),
        decreases n - i,
    {
        let c = encode_prompt_message(&ts[i]);
        let ghost prev = out@;
        out.push(c);
        proof {
            assert(out@.drop_last() =~= prev);
            assert(ts.deep_view().take(i + 1).drop_last() =~= ts.deep_view().take(i as int));
            assert(crate::json::jview_seq(out@) =~= enc_prompt_message_seq(ts.deep_view().take(i + 1)));
        }
        i = i + 1;
    }
    proof {
        assert(ts.deep_view().take(n as int) =~= ts.deep_view());
    }
    out
}

pub fn decode_prompt_message_seq(js: &Vec<Json>) -> (r: Option<Vec<PromptMessage>>)
    ensures
        r.deep_view() == dec_prompt_message_seq(crate::json::jview_seq(js@)),
{
    let ghost whole = crate::json::jview_seq(js@);
    let n = js.len();
    proof {
        crate::json::lemma_jview_seq_len(js@);
        assert(whole.skip(0) =~= whole);
    }
    let mut out: Vec<PromptMessage> = Vec::new();
    let mut i: usize = 0;
    while i < n
        invariant
            n == js@.len(),
            whole == crate::json::jview_seq(js@),
            whole.len() == n,
            i <= n,
            out@.len() == i,
            dec_prompt_message_seq(whole) == (match dec_prompt_message_seq(whole.skip(i as int)) {
                Some(rest) => Some(out.deep_view() + rest),
                None => None,
            }),
        decreases n - i,
    {
        proof {
            crate::json::lemma_jview_seq_index(js@, i as int);
            assert(whole.skip(i as int)[0] == whole[i as int]);
        }
        let t = match decode_prompt_message(&js[i]) {
            Some(t) => t,
            None => {
                proof {
                    assert(dec_prompt_message(whole.skip(i as int)[0]) is None);
                    assert(dec_prompt_message_seq(whole.skip(i as int)) is None);
                }
                return None;
            },
        };
        let ghost prev = out@;
        let ghost prevdv = out.deep_view();
        out.push(t);
        proof {
            assert(out@.drop_last() =~= prev);
            assert(out.deep_view() =~= prevdv.push(t.deep_view()));
            assert(whole.skip(i as int).drop_first() =~= whole.skip(i + 1));
            assert(dec_prompt_message(whole.skip(i as int)[0]) == Some(t.deep_view()));
            match dec_prompt_message_seq(whole.skip(i + 1)) {
                Some(rest) => {
                    assert(dec_prompt_message_seq(whole.skip(i as int)) == Some(
                        seq![t.deep_view()] + rest,
                    ));
                    assert(prevdv + (seq![t.deep_view()] + rest) =~= out.deep_view() + rest);
                },
                None => {
                    assert(dec_prompt_message_seq(whole.skip(i as int)) is None);
                },
            }
        }
        i = i + 1;
    }
    proof {
        assert(whole.skip(n as int) =~= Seq::<JsonVal>::empty());
        assert(out.deep_view() + Seq::<PromptMessageV>::empty() =~= out.deep_view());
    }
    Some(out)
}

/// A sequence of such records survives the trip onto the wire and back.
pub broadcast proof fn lemma_prompt_message_seq_round_trip(ts: Seq<PromptMessageV>)
    ensures
        #[trigger] dec_prompt_message_seq(enc_prompt_message_seq(ts)) == Some(ts),
    decreases ts,
{
    if ts.len() == 0 {
        assert(enc_prompt_message_seq(ts) =~= Seq::<JsonVal>::empty());
    } else {
        lemma_prompt_message_round_trip(ts[0]);
        lemma_prompt_message_seq_round_trip(ts.drop_first());
        assert(enc_prompt_message_seq(ts).drop_first() =~= enc_prompt_message_seq(ts.drop_first()));
        assert(enc_prompt_message_seq(ts)[0] == enc_prompt_message(ts[0]));
        assert(seq![ts[0]] + ts.drop_first() =~= ts);
    }
}

pub open spec fn enc_resource_seq(ts: Seq<ResourceV>) -> Seq<JsonVal> {
    ts.map_values(|t: ResourceV| enc_resource(t))
}

pub open spec fn dec_resource_seq(js: Seq<JsonVal>) -> Option<Seq<ResourceV>>
    decreases js,
{
    if js.len() == 0 {
        Some(Seq::empty())
    } else {
        match (dec_resource(js[0]), dec_resource_seq(js.drop_first())) {
            (Some(t), Some(rest)) => Some(seq![t] + rest),
            _ => None,
        }
    }
}

pub fn encode_resource_seq(ts: &Vec<Resource>) -> (out: Vec<Json>)
    ensures
        crate::json::jview_seq(out@) == enc_resource_seq(ts.deep_view()),
{
    let n = ts.len();
    let mut out: Vec<Json> = Vec::new();
    let mut i: usize = 0;
    proof {
        assert(crate::json::jview_seq(out@) =~= enc_resource_seq(ts.deep_view().take(0)));
    }
    while i < n
        invariant
            n == ts@.len(),
            i <= n,
            out@.len() == i,
            crate::json::jview_seq(out@) == enc_resource_seq(ts.deep_view().take(i as int)),
        decreases n - i,
    {
        let c = encode_resource(&ts[i]);
        let ghost prev = out@;
        out.push(c);
        proof {
            assert(out@.drop_last() =~= prev);
            assert(ts.deep_view().take(i + 1).drop_last() =~= ts.deep_view().take(i as int));
            assert(crate::json::jview_seq(out@) =~= enc_resource_seq(ts.deep_view().take(i + 1)));
        }
        i = i + 1;
    }
    proof {
        assert(ts.deep_view().take(n as int) =~= ts.deep_view());
    }
    out
}

pub fn decode_resource_seq(js: &Vec<Json>) -> (r: Option<Vec<Resource>>)
    ensures
        r.deep_view() == dec_resource_seq(crate::json::jview_seq(js@)),
{
    let ghost whole = crate::json::jview_seq(js@);
    let n = js.len();
    proof {
        crate::json::lemma_jview_seq_len(js@);
        assert(whole.skip(0) =~= whole);
    }
    let mut out: Vec<Resource> = Vec::new();
    let mut i: usize = 0;
    while i < n
        invariant
            n == js@.len(),
            whole == crate::json::jview_seq(js@),
            whole.len() == n,
            i <= n,
            out@.len() == i,
            dec_resource_seq(whole) == (match dec_resource_seq(whole.skip(i as int)) {
                Some(rest) => Some(out.deep_view() + rest),
                None => None,
            }),
        decreases n - i,
    {
        proof {
            crate::json::lemma_jview_seq_index(js@, i as int);
            assert(whole.skip(i as int)[0] == whole[i as int]);
        }
        let t = match decode_resource(&js[i]) {
            Some(t) => t,
            None => {
                proof {
                    assert(dec_resource(whole.skip(i as int)[0]) is None);
                    assert(dec_resource_seq(whole.skip(i as int)) is None);
                }
                return None;
            },
        };
        let ghost prev = out@;
        let ghost prevdv = out.deep_view();
        out.push(t);
        proof {
            assert(out@.drop_last() =~= prev);
            assert(out.deep_view() =~= prevdv.push(t.deep_view()));
            assert(whole.skip(i as int).drop_first() =~= whole.skip(i + 1));
            assert(dec_resource(whole.skip(i as int)[0]) == Some(t.deep_view()));
            match dec_resource_seq(whole.skip(i + 1)) {
                Some(rest) => {
                    assert(dec_resource_seq(whole.skip(i as int)) == Some(
                        seq![t.deep_view()] + rest,
                    ));
                    assert(prevdv + (seq![t.deep_view()] + rest) =~= out.deep_view() + rest);
                },
                None => {
                    assert(dec_resource_seq(whole.skip(i as int)) is None);
                },
            }
        }
        i = i + 1;
    }
    proof {
        assert(whole.skip(n as int) =~= Seq::<JsonVal>::empty());
        assert(out.deep_view() + Seq::<ResourceV>::empty() =~= out.deep_view());
    }
    Some(out)
}

/// A sequence of such records survives the trip onto the wire and back.
pub broadcast proof fn lemma_resource_seq_round_trip(ts: Seq<ResourceV>)
    ensures
        #[trigger] dec_resource_seq(enc_resource_seq(ts)) == Some(ts),
    decreases ts,
{
    if ts.len() == 0 {
        assert(enc_resource_seq(ts) =~= Seq::<JsonVal>::empty());
    } else {
        lemma_resource_round_trip(ts[0]);
        lemma_resource_seq_round_trip(ts.drop_first());
        assert(enc_resource_seq(ts).drop_first() =~= enc_resource_seq(ts.drop_first()));
        assert(enc_resource_seq(ts)[0] == enc_resource(ts[0]));
        assert(seq![ts[0]] + ts.drop_first() =~= ts);
    }
}


pub open spec fn enc_list_prompts_result(v: ListPromptsResultV) -> JsonVal {
    JsonVal::Obj(seq![("prompts"@, JsonVal::Arr(enc_prompt_seq(v.prompts)))])
}

pub open spec fn dec_list_prompts_result(j: JsonVal) -> Option<ListPromptsResultV> {
    match j {
        JsonVal::Obj(ms) => match lookup(ms, "prompts"@) {
            Some(JsonVal::Arr(js)) => match dec_prompt_seq(js) {
                Some(ps) => Some(ListPromptsResultV { prompts: ps }),
                None => None,
            },
            _ => None,
        },
        _ => None,
    }
}

pub fn encode_list_prompts_result(v: &ListPromptsResult) -> (out: Json)
    ensures
        out.deep_view() == enc_list_prompts_result(v.deep_view()),
{
    let mut m: Vec<(String, Json)> = Vec::new();
    obj_push(&mut m, "prompts", Json::Arr(encode_prompt_seq(&v.prompts)));
    let out = Json::Obj(m);
    proof {
        assert(jview_members(m@) =~= enc_list_prompts_result(v.deep_view())->Obj_0);
    }
    out
}

pub fn decode_list_prompts_result(j: &Json) -> (r: Option<ListPromptsResult>)
    ensures
        r.deep_view() == dec_list_prompts_result(j.deep_view()),
{
    let members = match j {
        Json::Obj(ms) => ms,
        _ => {
            return None;
        },
    };
    match obj_get(members, "prompts") {
        Some(Json::Arr(js)) => match decode_prompt_seq(js) {
            Some(ps) => Some(ListPromptsResult { prompts: ps }),
            None => None,
        },
        _ => None,
    }
}

/// The prompts-list result survives the trip onto the wire and back.
pub broadcast proof fn lemma_list_prompts_result_round_trip(v: ListPromptsResultV)
    ensures
        #[trigger] dec_list_prompts_result(enc_list_prompts_result(v)) == Some(v),
{
    let ms = enc_list_prompts_result(v)->Obj_0;
    assert(lookup(ms, "prompts"@) == Some(JsonVal::Arr(enc_prompt_seq(v.prompts))));
    lemma_prompt_seq_round_trip(v.prompts);
}

pub open spec fn enc_get_prompt_result(v: GetPromptResultV) -> JsonVal {
    JsonVal::Obj(enc_get_prompt_result_members(v))
}

pub open spec fn enc_get_prompt_result_members(v: GetPromptResultV) -> Seq<(Seq<char>, JsonVal)> {
    let m = if v.description is Some {
        seq![("description"@, JsonVal::Str(v.description->0))]
    } else {
        Seq::<(Seq<char>, JsonVal)>::empty()
    };
    m.push(("messages"@, JsonVal::Arr(enc_prompt_message_seq(v.messages))))
}

pub open spec fn dec_get_prompt_result(j: JsonVal) -> Option<GetPromptResultV> {
    match j {
        JsonVal::Obj(ms) => match (dec_opt_str_field(ms, "description"@), lookup(ms, "messages"@)) {
            (Some(d), Some(JsonVal::Arr(js))) => match dec_prompt_message_seq(js) {
                Some(msgs) => Some(GetPromptResultV { description: d, messages: msgs }),
                None => None,
            },
            _ => None,
        },
        _ => None,
    }
}

pub fn encode_get_prompt_result(v: &GetPromptResult) -> (out: Json)
    ensures
        out.deep_view() == enc_get_prompt_result(v.deep_view()),
{
    let mut m: Vec<(String, Json)> = Vec::new();
    match &v.description {
        Some(d) => {
            obj_push(&mut m, "description", Json::Str(d.clone()));
        },
        None => {},
    }
    obj_push(&mut m, "messages", Json::Arr(encode_prompt_message_seq(&v.messages)));
    let out = Json::Obj(m);
    proof {
        assert(jview_members(m@) =~= enc_get_prompt_result_members(v.deep_view()));
    }
    out
}

pub fn decode_get_prompt_result(j: &Json) -> (r: Option<GetPromptResult>)
    ensures
        r.deep_view() == dec_get_prompt_result(j.deep_view()),
{
    let members = match j {
        Json::Obj(ms) => ms,
        _ => {
            return None;
        },
    };
    let description = match obj_get_opt_str(members, "description") {
        Some(d) => d,
        None => {
            return None;
        },
    };
    let messages = match obj_get(members, "messages") {
        Some(Json::Arr(js)) => match decode_prompt_message_seq(js) {
            Some(msgs) => msgs,
            None => {
                return None;
            },
        },
        _ => {
            return None;
        },
    };
    Some(GetPromptResult { description, messages })
}

/// A prompt-get result survives the trip onto the wire and back.
pub broadcast proof fn lemma_get_prompt_result_round_trip(v: GetPromptResultV)
    ensures
        #[trigger] dec_get_prompt_result(enc_get_prompt_result(v)) == Some(v),
{
    broadcast use vstd::string::group_string_axioms;
    broadcast use lemma_lookup_push;

    reveal_strlit("description");
    reveal_strlit("messages");
    assert("description"@.len() == 11);
    assert("messages"@.len() == 8);
    let e = Seq::<(Seq<char>, JsonVal)>::empty();
    assert(lookup(e, "description"@) is None);
    assert(lookup(e, "messages"@) is None);
    lemma_prompt_message_seq_round_trip(v.messages);
}

// --- The response union ---

pub open spec fn enc_jsonrpc_response(v: JSONRPCResponseV) -> JsonVal {
    match v {
        JSONRPCResponseV::Success(r) => enc_response(r),
        JSONRPCResponseV::Error(e) => enc_error_response(e),
    }
}

/// The response union is untagged: a value with a `result` member is a
/// success, otherwise one with an `error` member is an error response.
pub open spec fn dec_jsonrpc_response(j: JsonVal) -> Option<JSONRPCResponseV> {
    match dec_response(j) {
        Some(r) => Some(JSONRPCResponseV::Success(r)),
        None => match dec_error_response(j) {
            Some(e) => Some(JSONRPCResponseV::Error(e)),
            None => None,
        },
    }
}

pub fn encode_jsonrpc_response(v: &JSONRPCResponse) -> (out: Json)
    ensures
        out.deep_view() == enc_jsonrpc_response(v.deep_view()),
{
    match v {
        JSONRPCResponse::Success(r) => encode_response(r),
        JSONRPCResponse::Error(e) => encode_error_response(e),
    }
}

pub fn decode_jsonrpc_response(j: &Json) -> (r: Option<JSONRPCResponse>)
    ensures
        r.deep_view() == dec_jsonrpc_response(j.deep_view()),
{
    match decode_response(j) {
        Some(r) => Some(JSONRPCResponse::Success(r)),
        None => match decode_error_response(j) {
            Some(e) => Some(JSONRPCResponse::Error(e)),
            None => None,
        },
    }
}

/// A response of either kind survives the trip onto the wire and back.
pub broadcast proof fn lemma_jsonrpc_response_round_trip(v: JSONRPCResponseV)
    requires
        v is Error ==> i32::MIN <= v->Error_0.error.code <= i32::MAX,
    ensures
        #[trigger] dec_jsonrpc_response(enc_jsonrpc_response(v)) == Some(v),
{
    broadcast use vstd::string::group_string_axioms;
    broadcast use lemma_lookup_push;

    reveal_strlit("jsonrpc");
    reveal_strlit("id");
    reveal_strlit("result");
    reveal_strlit("error");
    assert("jsonrpc"@.len() == 7);
    assert("id"@.len() == 2);
    assert("result"@.len() == 6);
    assert("error"@.len() == 5);
    match v {
        JSONRPCResponseV::Success(r) => {
            lemma_response_round_trip(r);
        },
        JSONRPCResponseV::Error(e) => {
            lemma_error_response_round_trip(e);
            let base = seq![("jsonrpc"@, JsonVal::Str(e.jsonrpc))];
            assert(lookup(base, "result"@) is None);
            assert(lookup(enc_error_response(e)->Obj_0, "result"@) is None);
            assert(dec_response(enc_error_response(e)) is None);
        },
    }
}


/// Parameters of the tool-list-changed notification carry no fields: any
/// object is accepted (members are ignored), anything else is not.
pub open spec fn dec_list_tools_changed_params(j: JsonVal) -> Option<ListToolsChangedParams> {
    if j is Obj {
        Some(ListToolsChangedParams {  })
    } else {
        None
    }
}

pub fn encode_list_tools_changed_params() -> (out: Json)
    ensures
        out.deep_view() == enc_empty_params(),
{
    encode_empty_params()
}

pub fn decode_list_tools_changed_params(j: &Json) -> (r: Option<ListToolsChangedParams>)
    ensures
        r == dec_list_tools_changed_params(j.deep_view()),
{
    match j {
        Json::Obj(_) => Some(ListToolsChangedParams {  }),
        _ => None,
    }
}

/// The empty parameters survive the trip onto the wire and back.
pub proof fn lemma_list_tools_changed_params_round_trip()
    ensures
        dec_list_tools_changed_params(enc_empty_params()) == Some(ListToolsChangedParams {  }),
{
}

// --- Frames ---

/// Whether a received frame is blank: empty or all whitespace.  Such a
/// frame is treated as no message at all, not as a decode error.
pub open spec fn spec_frame_blank(t: Seq<char>) -> bool {
    forall|i: int| 0 <= i < t.len() ==> crate::json::is_json_ws(#[trigger] t[i])
}

pub fn frame_is_blank(text: &Vec<char>) -> (r: bool)
    ensures
        r == spec_frame_blank(text@),
{
    let n = text.len();
    let mut i: usize = 0;
    while i < n
        invariant
            n == text@.len(),
            i <= n,
            forall|k: int| 0 <= k < i ==> crate::json::is_json_ws(#[trigger] text@[k]),
        decreases n - i,
    {
        let c = text[i];
        if !(c == ' ' || c == '\t' || c == '\n' || c == '\r') {
            proof {
                assert(!crate::json::is_json_ws(text@[i as int]));
            }
            return false;
        }
        i = i + 1;
    }
    true
}

} // verus!
