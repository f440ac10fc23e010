//! JSON-RPC 2.0 message framing and correlation.
//!
//! One message per line. An outbound request or notification is printed
//! from plain data by the verified JSON writer; an inbound line is
//! parsed and then classified: a message with an `id` is a reply and is
//! matched against the awaited request id, one without is a server
//! notification.

use vstd::prelude::*;
use crate::json::{
    json_parsed, json_text, json_write, jval_of, lemma_json_text_line_free, line_free,
    nums_line_free, spec_obj_get, JVal, JsonValue,
};

verus! {

/// The MCP protocol revision this client speaks.
pub open spec fn spec_protocol_version() -> Seq<char> {
    "2025-06-18"@
}

/// The MCP protocol revision this client speaks.
pub const PROTOCOL_VERSION: &'static str = "2025-06-18";

/// The MCP protocol revision this client speaks.
pub fn protocol_version() -> (r: &'static str)
    ensures
        r@ == spec_protocol_version(),
{
    "2025-06-18"
}

/// A request id on the wire: a number, a string, or null.
pub enum RequestId {
    String(String),
    Number(i64),
    Null,
}

/// The JSON value that carries a request id.
pub open spec fn id_jval(id: RequestId) -> JVal {
    match id {
        RequestId::String(s) => JVal::Str(s@),
        RequestId::Number(n) => JVal::Int(n),
        RequestId::Null => JVal::Null,
    }
}

/// An outbound JSON-RPC request.
pub struct JsonRpcRequest {
    pub jsonrpc: String,
    pub method: String,
    pub params: Option<JsonValue>,
    pub id: RequestId,
}

impl JsonRpcRequest {
    /// A request under protocol revision 2.0 with a numeric id.
    pub fn new(method: &str, params: Option<JsonValue>, id: i64) -> (r: JsonRpcRequest)
        ensures
            r.jsonrpc@ == "2.0"@,
            r.method@ == method@,
            r.params == params,
            r.id == RequestId::Number(id),
    {
        JsonRpcRequest {
            jsonrpc: "2.0".to_owned(),
            method: method.to_owned(),
            params,
            id: RequestId::Number(id),
        }
    }
}

/// An outbound JSON-RPC notification: a request without an id.
pub struct JsonRpcNotification {
    pub jsonrpc: String,
    pub method: String,
    pub params: Option<JsonValue>,
}

impl JsonRpcNotification {
    /// A notification under protocol revision 2.0.
    pub fn new(method: &str, params: Option<JsonValue>) -> (r: JsonRpcNotification)
        ensures
            r.jsonrpc@ == "2.0"@,
            r.method@ == method@,
            r.params == params,
    {
        JsonRpcNotification { jsonrpc: "2.0".to_owned(), method: method.to_owned(), params }
    }
}

/// An inbound JSON-RPC error object.
pub struct JsonRpcError {
    pub code: i64,
    pub message: String,
    pub data: Option<JsonValue>,
}

impl JsonRpcError {
    pub const PARSE_ERROR: i64 = -32700;

    pub const INVALID_REQUEST: i64 = -32600;

    pub const METHOD_NOT_FOUND: i64 = -32601;

    pub const INVALID_PARAMS: i64 = -32602;

    pub const INTERNAL_ERROR: i64 = -32603;

    /// An error with no extra data.
    pub fn new(code: i64, message: &str) -> (r: JsonRpcError)
        ensures
            r.code == code,
            r.message@ == message@,
            r.data is None,
    {
        JsonRpcError { code, message: message.to_owned(), data: None }
    }

    /// An error carrying extra data.
    pub fn with_data(code: i64, message: &str, data: JsonValue) -> (r: JsonRpcError)
        ensures
            r.code == code,
            r.message@ == message@,
            r.data == Some(data),
    {
        JsonRpcError { code, message: message.to_owned(), data: Some(data) }
    }
}

/// An inbound JSON-RPC reply: a result or an error, correlated by id.
pub struct JsonRpcResponse {
    pub result: Option<JsonValue>,
    pub error: Option<JsonRpcError>,
    pub id: RequestId,
}

/// The model of a reply: its id, result and error as JSON models.
pub open spec fn response_model(r: JsonRpcResponse) -> (JVal, Option<JVal>, Option<
    (int, Seq<char>, Option<JVal>),
>) {
    (
        id_jval(r.id),
        match r.result {
            Some(v) => Some(jval_of(v)),
            None => None,
        },
        match r.error {
            Some(e) => Some(
                (
                    e.code as int,
                    e.message@,
                    match e.data {
                        Some(d) => Some(jval_of(d)),
                        None => None,
                    },
                ),
            ),
            None => None,
        },
    )
}

/// The wire object of a request: `jsonrpc`, `method`, `params` (when
/// given), `id`, in that order.
pub open spec fn spec_request_jval(
    method: Seq<char>,
    params: Option<JVal>,
    id: JVal,
) -> JVal {
    match params {
        Some(p) => JVal::Obj(
            seq![
                ("jsonrpc"@, JVal::Str("2.0"@)),
                ("method"@, JVal::Str(method)),
                ("params"@, p),
                ("id"@, id),
            ],
        ),
        None => JVal::Obj(
            seq![("jsonrpc"@, JVal::Str("2.0"@)), ("method"@, JVal::Str(method)), ("id"@, id)],
        ),
    }
}

/// The wire object of a notification: as a request, without `id`.
pub open spec fn spec_notification_jval(method: Seq<char>, params: Option<JVal>) -> JVal {
    match params {
        Some(p) => JVal::Obj(
            seq![
                ("jsonrpc"@, JVal::Str("2.0"@)),
                ("method"@, JVal::Str(method)),
                ("params"@, p),
            ],
        ),
        None => JVal::Obj(seq![("jsonrpc"@, JVal::Str("2.0"@)), ("method"@, JVal::Str(method))]),
    }
}

/// A request or notification object stays on one line: its fixed
/// members never hold a raw number literal, so only the params can.
proof fn lemma_wire_members_line_free(members: Seq<(Seq<char>, JVal)>)
    requires
        forall|i: int| 0 <= i < members.len() ==> nums_line_free(#[trigger] members[i].1),
    ensures
        crate::json::nums_line_free_members(members),
    decreases members.len(),
{
    if members.len() > 0 {
        assert forall|i: int|
            0 <= i < members.drop_first().len() implies nums_line_free(
            #[trigger] members.drop_first()[i].1,
        ) by {
            assert(members.drop_first()[i] == members[i + 1]);
        }
        lemma_wire_members_line_free(members.drop_first());
    }
}

fn id_to_json(id: RequestId) -> (r: JsonValue)
    ensures
        jval_of(r) == id_jval(id),
{
    match id {
        RequestId::String(s) => JsonValue::Str(s),
        RequestId::Number(n) => JsonValue::Int(n),
        RequestId::Null => JsonValue::Null,
    }
}

/// Print a request as its one-line wire text.
pub fn encode_request(req: JsonRpcRequest) -> (r: String)
    requires
        req.jsonrpc@ == "2.0"@,
    ensures
        r@ == json_text(
            spec_request_jval(
                req.method@,
                match req.params {
                    Some(p) => Some(jval_of(p)),
                    None => None,
                },
                id_jval(req.id),
            ),
        ),
        (match req.params {
            Some(p) => nums_line_free(jval_of(p)),
            None => true,
        }) ==> line_free(r@),
{
    let JsonRpcRequest { jsonrpc: _, method, params, id } = req;
    let mut members: Vec<(String, JsonValue)> = Vec::new();
    members.push(("jsonrpc".to_owned(), JsonValue::Str("2.0".to_owned())));
    members.push(("method".to_owned(), JsonValue::Str(method)));
    let ghost has_params = params is Some;
    match params {
        Some(p) => {
            members.push(("params".to_owned(), p));
        },
        None => {},
    }
    members.push(("id".to_owned(), id_to_json(id)));
    let v = JsonValue::Obj(members);
    proof {
        crate::json::lemma_members_view(v->Obj_0@);
        assert(crate::json::members_view(v->Obj_0@) =~= spec_request_jval(
            method@,
            if has_params {
                Some(jval_of(req.params->0))
            } else {
                None
            },
            id_jval(req.id),
        )->Obj_0);
        let jv = spec_request_jval(
            method@,
            if has_params {
                Some(jval_of(req.params->0))
            } else {
                None
            },
            id_jval(req.id),
        );
        if !has_params || nums_line_free(jval_of(req.params->0)) {
            assert(nums_line_free(id_jval(req.id)));
            lemma_wire_members_line_free(jv->Obj_0);
            lemma_json_text_line_free(jv);
        }
    }
    json_write(&v)
}

/// Print a notification as its one-line wire text.
pub fn encode_notification(note: JsonRpcNotification) -> (r: String)
    requires
        note.jsonrpc@ == "2.0"@,
    ensures
        r@ == json_text(
            spec_notification_jval(
                note.method@,
                match note.params {
                    Some(p) => Some(jval_of(p)),
                    None => None,
                },
            ),
        ),
        (match note.params {
            Some(p) => nums_line_free(jval_of(p)),
            None => true,
        }) ==> line_free(r@),
{
    let JsonRpcNotification { jsonrpc: _, method, params } = note;
    let mut members: Vec<(String, JsonValue)> = Vec::new();
    members.push(("jsonrpc".to_owned(), JsonValue::Str("2.0".to_owned())));
    members.push(("method".to_owned(), JsonValue::Str(method)));
    let ghost has_params = params is Some;
    match params {
        Some(p) => {
            members.push(("params".to_owned(), p));
        },
        None => {},
    }
    let v = JsonValue::Obj(members);
    proof {
        crate::json::lemma_members_view(v->Obj_0@);
        assert(crate::json::members_view(v->Obj_0@) =~= spec_notification_jval(
            method@,
            if has_params {
                Some(jval_of(note.params->0))
            } else {
                None
            },
        )->Obj_0);
        let jv = spec_notification_jval(
            method@,
            if has_params {
                Some(jval_of(note.params->0))
            } else {
                None
            },
        );
        if !has_params || nums_line_free(jval_of(note.params->0)) {
            lemma_wire_members_line_free(jv->Obj_0);
            lemma_json_text_line_free(jv);
        }
    }
    json_write(&v)
}

/// The id member of a parsed message, as a request id, when its shape is
/// one of the three allowed.
pub open spec fn spec_id_of(v: JVal) -> Option<JVal> {
    match v {
        JVal::Obj(m) => spec_obj_get(m, "id"@),
        _ => None,
    }
}

/// A reply's error member model, when shaped as an error object: `code`
/// must be an integer and `message` a string.
pub open spec fn spec_error_model(e: JVal) -> Option<(int, Seq<char>, Option<JVal>)> {
    match e {
        JVal::Obj(m) => match (spec_obj_get(m, "code"@), spec_obj_get(m, "message"@)) {
            (Some(c), Some(msg)) => match (c, msg) {
                (JVal::Int(code), JVal::Str(text)) => Some(
                    (code as int, text, spec_obj_get(m, "data"@)),
                ),
                _ => None,
            },
            _ => None,
        },
        _ => None,
    }
}

/// What an inbound line means while a request with `expected` as its
/// numeric id is awaited.
pub enum LineDecision {
    /// The awaited reply.
    Match(JsonRpcResponse),
    /// A reply to some other id; it is logged and discarded.
    Mismatch(JsonRpcResponse),
    /// A server notification, by method name.
    Note { method: Option<String>, params: Option<JsonValue> },
    /// Not a JSON object, or a reply whose shape is broken.
    Malformed,
}

/// A message with an `id` member and its pieces in the allowed shapes.
pub open spec fn spec_reply_model(v: JVal) -> Option<
    (JVal, Option<JVal>, Option<(int, Seq<char>, Option<JVal>)>),
> {
    match v {
        JVal::Obj(m) => match spec_obj_get(m, "id"@) {
            Some(id) => {
                if !(id is Int || id is Str || id is Null) {
                    None
                } else {
                    let err = spec_obj_get(m, "error"@);
                    match err {
                        Some(e) => match spec_error_model(e) {
                            Some(em) => Some((id, spec_obj_get(m, "result"@), Some(em))),
                            None => None,
                        },
                        None => Some((id, spec_obj_get(m, "result"@), None)),
                    }
                }
            },
            None => None,
        },
        _ => None,
    }
}

/// Classify one inbound line against the awaited numeric id. A line
/// that is not JSON is malformed. An object with an `id` member is a
/// reply: shaped badly it is malformed, with the awaited id it is the
/// match, with any other id a mismatch. An object without `id` is a
/// notification carrying its `method` name.
pub fn decide_line(line: &str, expected: i64) -> (r: LineDecision)
    ensures
        ({
            let p = json_parsed(line@);
            match r {
                LineDecision::Match(resp) => p matches Some(v) && spec_reply_model(v) == Some(
                    response_model(resp),
                ) && id_jval(resp.id) == JVal::Int(expected),
                LineDecision::Mismatch(resp) => p matches Some(v) && spec_reply_model(v) == Some(
                    response_model(resp),
                ) && id_jval(resp.id) != JVal::Int(expected),
                LineDecision::Note { method, params } => p matches Some(v) && v matches JVal::Obj(m)
                    && spec_obj_get(m, "id"@) is None && (match method {
                    Some(name) => spec_obj_get(m, "method"@) == Some(JVal::Str(name@)),
                    None => !(spec_obj_get(m, "method"@) matches Some(x) && x is Str),
                }) && (match params {
                    Some(pv) => spec_obj_get(m, "params"@) == Some(jval_of(pv)),
                    None => spec_obj_get(m, "params"@) is None,
                }),
                LineDecision::Malformed => match p {
                    Some(v) => (spec_id_of(v) is Some && spec_reply_model(v) is None) || !(
                    v is Obj),
                    None => true,
                },
            }
        }),
{
    let parsed = crate::json::parse_json(line);
    let v = match parsed {
        Some(v) => v,
        None => {
            return LineDecision::Malformed;
        },
    };
    if !(matches!(v, JsonValue::Obj(_))) {
        return LineDecision::Malformed;
    }
    let id_member = v.get("id");
    match id_member {
        Some(idv) => {
            let id = match idv {
                JsonValue::Int(n) => RequestId::Number(*n),
                JsonValue::Str(s) => RequestId::String(s.clone()),
                JsonValue::Null => RequestId::Null,
                _ => {
                    return LineDecision::Malformed;
                },
            };
            let error = match v.get("error") {
                Some(e) => {
                    let code = match e.get("code") {
                        Some(c) => match c {
                            JsonValue::Int(n) => *n,
                            _ => {
                                return LineDecision::Malformed;
                            },
                        },
                        None => {
                            return LineDecision::Malformed;
                        },
                    };
                    let message = match e.get("message") {
                        Some(msg) => match msg.as_str() {
                            Some(s) => s.clone(),
                            None => {
                                return LineDecision::Malformed;
                            },
                        },
                        None => {
                            return LineDecision::Malformed;
                        },
                    };
                    let data = match e.get("data") {
                        Some(d) => Some(crate::detect::clone_json(d)),
                        None => None,
                    };
                    Some(JsonRpcError { code, message, data })
                },
                None => None,
            };
            let result = match v.get("result") {
                Some(res) => Some(crate::detect::clone_json(res)),
                None => None,
            };
            let resp = JsonRpcResponse { result, error, id };
            let is_match = match &resp.id {
                RequestId::Number(n) => *n == expected,
                _ => false,
            };
            if is_match {
                LineDecision::Match(resp)
            } else {
                LineDecision::Mismatch(resp)
            }
        },
        None => {
            let method = match v.get("method") {
                Some(mv) => match mv.as_str() {
                    Some(s) => Some(s.clone()),
                    None => None,
                },
                None => None,
            };
            let params = match v.get("params") {
                Some(pv) => Some(crate::detect::clone_json(pv)),
                None => None,
            };
            LineDecision::Note { method, params }
        },
    }
}



/// A progress token a server sends with progress notifications.
pub enum ProgressToken {
    String(String),
    Number(i64),
}

/// The params of a `$/cancelRequest` notification.
pub struct CancelParams {
    pub request_id: RequestId,
    pub reason: Option<String>,
}

/// The params of a `tools/list` request: an empty object.
pub struct ListToolsParams {}

/// The wire object of a cancel notification's params.
pub open spec fn spec_cancel_params_jval(id: JVal, reason: Option<Seq<char>>) -> JVal {
    match reason {
        Some(r) => JVal::Obj(seq![("requestId"@, id), ("reason"@, JVal::Str(r))]),
        None => JVal::Obj(seq![("requestId"@, id), ("reason"@, JVal::Null)]),
    }
}

/// Build the params of a `$/cancelRequest` notification.
pub fn cancel_params_json(params: CancelParams) -> (r: JsonValue)
    ensures
        jval_of(r) == spec_cancel_params_jval(
            id_jval(params.request_id),
            match params.reason {
                Some(s) => Some(s@),
                None => None,
            },
        ),
{
    let CancelParams { request_id, reason } = params;
    let ghost greason: Option<Seq<char>> = match reason {
        Some(ref s) => Some(s@),
        None => None,
    };
    let mut members: Vec<(String, JsonValue)> = Vec::new();
    members.push(("requestId".to_owned(), id_to_json(request_id)));
    match reason {
        Some(text) => {
            members.push(("reason".to_owned(), JsonValue::Str(text)));
        },
        None => {
            members.push(("reason".to_owned(), JsonValue::Null));
        },
    }
    let v = JsonValue::Obj(members);
    proof {
        crate::json::lemma_members_view(v->Obj_0@);
        assert(crate::json::members_view(v->Obj_0@) =~= spec_cancel_params_jval(
            id_jval(params.request_id),
            greason,
        )->Obj_0);
    }
    v
}

} // verus!
