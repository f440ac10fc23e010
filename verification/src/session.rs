//! The MCP session layer as data: the initialize handshake bodies, the
//! tool catalog a server advertises, and the normalization of a tool
//! call's result into displayable text.
//!
//! The wire work (spawning the server, writing and reading lines) is
//! outside; everything here turns plain parsed JSON into session state
//! and back, and is verified against the shapes the protocol fixes.

use vstd::prelude::*;
use vstd::string::StringExecFns;
use crate::json::{jval_of, spec_obj_get, JVal, JsonValue};
use crate::protocol::spec_protocol_version;

verus! {

/// A client or server identity.
pub struct Implementation {
    pub name: String,
    pub version: String,
}

/// The roots capability this client could advertise.
pub struct RootsCapability {
    pub list_changed: bool,
}

/// What this client can do.
pub struct ClientCapabilities {
    pub experimental: Option<JsonValue>,
    pub sampling: Option<JsonValue>,
    pub roots: Option<RootsCapability>,
}

/// The tools capability a server advertises.
pub struct ToolsCapability {
    pub list_changed: Option<bool>,
}

/// The resources capability a server advertises.
pub struct ResourcesCapability {
    pub subscribe: Option<bool>,
    pub list_changed: Option<bool>,
}

/// The prompts capability a server advertises.
pub struct PromptsCapability {
    pub list_changed: Option<bool>,
}

/// What a server can do.
pub struct ServerCapabilities {
    pub experimental: Option<JsonValue>,
    pub logging: Option<JsonValue>,
    pub prompts: Option<PromptsCapability>,
    pub resources: Option<ResourcesCapability>,
    pub tools: Option<ToolsCapability>,
}

/// What the client sends in `initialize`.
pub struct InitializeParams {
    pub protocol_version: String,
    pub capabilities: ClientCapabilities,
    pub client_info: Implementation,
}

impl Default for InitializeParams {
    /// This client's identity under the protocol revision it speaks.
    fn default() -> (r: InitializeParams)
        ensures
            r.protocol_version@ == spec_protocol_version(),
            r.client_info.name@ == "rkllm-cli"@,
            r.client_info.version@ == "0.1.0"@,
            r.capabilities.experimental is None,
            r.capabilities.sampling is None,
            r.capabilities.roots is None,
    {
        InitializeParams {
            protocol_version: crate::protocol::protocol_version().to_owned(),
            capabilities: ClientCapabilities { experimental: None, sampling: None, roots: None },
            client_info: Implementation {
                name: "rkllm-cli".to_owned(),
                version: "0.1.0".to_owned(),
            },
        }
    }
}

/// The wire object of this client's `initialize` params.
pub open spec fn spec_initialize_params_jval(p: InitializeParams) -> JVal {
    JVal::Obj(
        seq![
            ("protocolVersion"@, JVal::Str(p.protocol_version@)),
            ("capabilities"@, JVal::Obj(Seq::empty())),
            (
                "clientInfo"@,
                JVal::Obj(
                    seq![
                        ("name"@, JVal::Str(p.client_info.name@)),
                        ("version"@, JVal::Str(p.client_info.version@)),
                    ],
                ),
            ),
        ],
    )
}

/// Build the `initialize` params for the wire. The capabilities object
/// is empty: this client advertises none.
pub fn initialize_params_json(p: InitializeParams) -> (r: JsonValue)
    requires
        p.capabilities.experimental is None,
        p.capabilities.sampling is None,
        p.capabilities.roots is None,
    ensures
        jval_of(r) == spec_initialize_params_jval(p),
{
    let InitializeParams { protocol_version, capabilities: _, client_info } = p;
    let mut info: Vec<(String, JsonValue)> = Vec::new();
    info.push(("name".to_owned(), JsonValue::Str(client_info.name)));
    info.push(("version".to_owned(), JsonValue::Str(client_info.version)));
    let ghost gi = info@;
    let empty_caps: Vec<(String, JsonValue)> = Vec::new();
    let ghost ge = empty_caps@;
    let mut members: Vec<(String, JsonValue)> = Vec::new();
    members.push(("protocolVersion".to_owned(), JsonValue::Str(protocol_version)));
    members.push(("capabilities".to_owned(), JsonValue::Obj(empty_caps)));
    members.push(("clientInfo".to_owned(), JsonValue::Obj(info)));
    let v = JsonValue::Obj(members);
    proof {
        crate::json::lemma_members_view(v->Obj_0@);
        crate::json::lemma_members_view(gi);
        crate::json::lemma_members_view(ge);
        assert(crate::json::members_view(ge) =~= Seq::<(Seq<char>, JVal)>::empty());
        assert(crate::json::members_view(gi) =~= seq![
            ("name"@, JVal::Str(p.client_info.name@)),
            ("version"@, JVal::Str(p.client_info.version@)),
        ]);
        assert(crate::json::members_view(v->Obj_0@) =~= spec_initialize_params_jval(p)->Obj_0);
    }
    v
}

/// What the server answers to `initialize`.
pub struct InitializeResult {
    pub protocol_version: String,
    pub capabilities: ServerCapabilities,
    pub server_info: Implementation,
    pub instructions: Option<String>,
}

/// An optional boolean member: absent or null means `None`; anything but
/// a boolean otherwise is a shape error.
pub open spec fn spec_opt_bool(m: Seq<(Seq<char>, JVal)>, key: Seq<char>) -> Option<Option<bool>> {
    match spec_obj_get(m, key) {
        None => Some(None),
        Some(v) => match v {
            JVal::Null => Some(None),
            JVal::Bool(b) => Some(Some(b)),
            _ => None,
        },
    }
}

/// An optional string member: absent or null means `None`; anything but
/// a string otherwise is a shape error.
pub open spec fn spec_opt_string(m: Seq<(Seq<char>, JVal)>, key: Seq<char>) -> Option<
    Option<Seq<char>>,
> {
    match spec_obj_get(m, key) {
        None => Some(None),
        Some(v) => match v {
            JVal::Null => Some(None),
            JVal::Str(s) => Some(Some(s)),
            _ => None,
        },
    }
}

/// Read an optional boolean member of an object value.
fn get_opt_bool(v: &JsonValue, key: &str) -> (r: Option<Option<bool>>)
    requires
        v.deep_view() is Obj,
    ensures
        r == spec_opt_bool(v.deep_view()->Obj_0, key@),
{
    match v.get(key) {
        None => Some(None),
        Some(b) => match b {
            JsonValue::Null => Some(None),
            JsonValue::Bool(x) => Some(Some(*x)),
            _ => None,
        },
    }
}

/// Read an optional string member of an object value.
fn get_opt_string(v: &JsonValue, key: &str) -> (r: Option<Option<String>>)
    ensures
        v.deep_view() matches JVal::Obj(m) ==> match r {
            Some(inner) => spec_opt_string(m, key@) == Some(
                match inner {
                    Some(s) => Some(s@),
                    None => None,
                },
            ),
            None => spec_opt_string(m, key@) is None,
        },
        !(v.deep_view() is Obj) ==> r == Some(None::<String>),
{
    match v.get(key) {
        None => Some(None),
        Some(sv) => match sv {
            JsonValue::Null => Some(None),
            JsonValue::Str(s) => Some(Some(s.clone())),
            _ => None,
        },
    }
}

/// The server capabilities a parsed object yields; `None` on a shape
/// error in any member.
pub open spec fn spec_capabilities_ok(caps: ServerCapabilities, m: Seq<(Seq<char>, JVal)>) -> bool {
    &&& (match spec_obj_get(m, "tools"@) {
        None => caps.tools is None,
        Some(v) => match v {
            JVal::Null => caps.tools is None,
            JVal::Obj(tm) => caps.tools matches Some(t) && spec_opt_bool(tm, "listChanged"@)
                == Some(t.list_changed),
            _ => false,
        },
    })
    &&& (match spec_obj_get(m, "prompts"@) {
        None => caps.prompts is None,
        Some(v) => match v {
            JVal::Null => caps.prompts is None,
            JVal::Obj(pm) => caps.prompts matches Some(t) && spec_opt_bool(pm, "listChanged"@)
                == Some(t.list_changed),
            _ => false,
        },
    })
    &&& (match spec_obj_get(m, "resources"@) {
        None => caps.resources is None,
        Some(v) => match v {
            JVal::Null => caps.resources is None,
            JVal::Obj(rm) => caps.resources matches Some(t) && spec_opt_bool(rm, "subscribe"@)
                == Some(t.subscribe) && spec_opt_bool(rm, "listChanged"@) == Some(t.list_changed),
            _ => false,
        },
    })
    &&& (match spec_obj_get(m, "logging"@) {
        None => caps.logging is None,
        Some(v) => caps.logging matches Some(l) && jval_of(l) == v,
    })
    &&& (match spec_obj_get(m, "experimental"@) {
        None => caps.experimental is None,
        Some(v) => caps.experimental matches Some(l) && jval_of(l) == v,
    })
}

/// Whether a capabilities object is well-shaped.
pub open spec fn spec_capabilities_shape_ok(m: Seq<(Seq<char>, JVal)>) -> bool {
    &&& (match spec_obj_get(m, "tools"@) {
        None => true,
        Some(v) => v is Null || (v matches JVal::Obj(tm) && spec_opt_bool(tm, "listChanged"@)
            is Some),
    })
    &&& (match spec_obj_get(m, "prompts"@) {
        None => true,
        Some(v) => v is Null || (v matches JVal::Obj(pm) && spec_opt_bool(pm, "listChanged"@)
            is Some),
    })
    &&& (match spec_obj_get(m, "resources"@) {
        None => true,
        Some(v) => v is Null || (v matches JVal::Obj(rm) && spec_opt_bool(rm, "subscribe"@)
            is Some && spec_opt_bool(rm, "listChanged"@) is Some),
    })
}

/// Parse a server's capabilities object.
fn parse_capabilities(v: &JsonValue) -> (r: Option<ServerCapabilities>)
    requires
        v.deep_view() is Obj,
    ensures
        match r {
            Some(caps) => spec_capabilities_ok(caps, v.deep_view()->Obj_0),
            None => !spec_capabilities_shape_ok(v.deep_view()->Obj_0),
        },
{
    let tools = match v.get("tools") {
        None => None,
        Some(tv) => match tv {
            JsonValue::Null => None,
            JsonValue::Obj(_) => match get_opt_bool(tv, "listChanged") {
                Some(b) => Some(ToolsCapability { list_changed: b }),
                None => {
                    return None;
                },
            },
            _ => {
                return None;
            },
        },
    };
    let prompts = match v.get("prompts") {
        None => None,
        Some(pv) => match pv {
            JsonValue::Null => None,
            JsonValue::Obj(_) => match get_opt_bool(pv, "listChanged") {
                Some(b) => Some(PromptsCapability { list_changed: b }),
                None => {
                    return None;
                },
            },
            _ => {
                return None;
            },
        },
    };
    let resources = match v.get("resources") {
        None => None,
        Some(rv) => match rv {
            JsonValue::Null => None,
            JsonValue::Obj(_) => {
                let subscribe = match get_opt_bool(rv, "subscribe") {
                    Some(b) => b,
                    None => {
                        return None;
                    },
                };
                let list_changed = match get_opt_bool(rv, "listChanged") {
                    Some(b) => b,
                    None => {
                        return None;
                    },
                };
                Some(ResourcesCapability { subscribe, list_changed })
            },
            _ => {
                return None;
            },
        },
    };
    let logging = match v.get("logging") {
        None => None,
        Some(lv) => Some(crate::detect::clone_json(lv)),
    };
    let experimental = match v.get("experimental") {
        None => None,
        Some(ev) => Some(crate::detect::clone_json(ev)),
    };
    Some(ServerCapabilities { experimental, logging, prompts, resources, tools })
}

/// Whether an initialize result object is well-shaped: a string
/// `protocolVersion`, a capabilities object, and a `serverInfo` object
/// with string `name` and `version`.
pub open spec fn spec_init_result_shape_ok(m: Seq<(Seq<char>, JVal)>) -> bool {
    &&& (match spec_obj_get(m, "protocolVersion"@) {
        Some(pv) => pv is Str,
        None => false,
    })
    &&& (match spec_obj_get(m, "capabilities"@) {
        Some(cv) => match cv {
            JVal::Obj(cm) => spec_capabilities_shape_ok(cm),
            _ => false,
        },
        None => false,
    })
    &&& (match spec_obj_get(m, "serverInfo"@) {
        Some(sv) => match sv {
            JVal::Obj(sm) => (match spec_obj_get(sm, "name"@) {
                Some(nv) => nv is Str,
                None => false,
            }) && (match spec_obj_get(sm, "version"@) {
                Some(vv) => vv is Str,
                None => false,
            }),
            _ => false,
        },
        None => false,
    })
    &&& spec_opt_string(m, "instructions"@) is Some
}

/// Parse the body of a server's `initialize` reply. Succeeds exactly on
/// a well-shaped result, whatever protocol version the server names:
/// a version mismatch never fails the handshake, it is only reported.
pub fn parse_initialize_result(v: &JsonValue) -> (r: Option<InitializeResult>)
    ensures
        match r {
            Some(res) => v.deep_view() matches JVal::Obj(m) && {
                &&& spec_obj_get(m, "protocolVersion"@) == Some(
                    JVal::Str(res.protocol_version@),
                )
                &&& (match spec_obj_get(m, "capabilities"@) {
                    Some(cv) => match cv {
                        JVal::Obj(cm) => spec_capabilities_ok(res.capabilities, cm),
                        _ => false,
                    },
                    None => false,
                })
                &&& (match spec_obj_get(m, "serverInfo"@) {
                    Some(sv) => match sv {
                        JVal::Obj(sm) => spec_obj_get(sm, "name"@) == Some(
                            JVal::Str(res.server_info.name@),
                        ) && spec_obj_get(sm, "version"@) == Some(
                            JVal::Str(res.server_info.version@),
                        ),
                        _ => false,
                    },
                    None => false,
                })
                &&& spec_opt_string(m, "instructions"@) == Some(
                    match res.instructions {
                        Some(s) => Some(s@),
                        None => None,
                    },
                )
            },
            None => !(v.deep_view() matches JVal::Obj(m) && spec_init_result_shape_ok(m)),
        },
{
    if !(matches!(v, JsonValue::Obj(_))) {
        return None;
    }
    let protocol_version = match v.get("protocolVersion") {
        Some(pv) => match pv.as_str() {
            Some(s) => s.clone(),
            None => {
                return None;
            },
        },
        None => {
            return None;
        },
    };
    let capabilities = match v.get("capabilities") {
        Some(cv) => match cv {
            JsonValue::Obj(_) => match parse_capabilities(cv) {
                Some(c) => c,
                None => {
                    return None;
                },
            },
            _ => {
                return None;
            },
        },
        None => {
            return None;
        },
    };
    let server_info = match v.get("serverInfo") {
        Some(sv) => match sv {
            JsonValue::Obj(_) => {
                let name = match sv.get("name") {
                    Some(nv) => match nv.as_str() {
                        Some(s) => s.clone(),
                        None => {
                            return None;
                        },
                    },
                    None => {
                        return None;
                    },
                };
                let version = match sv.get("version") {
                    Some(vv) => match vv.as_str() {
                        Some(s) => s.clone(),
                        None => {
                            return None;
                        },
                    },
                    None => {
                        return None;
                    },
                };
                Implementation { name, version }
            },
            _ => {
                return None;
            },
        },
        None => {
            return None;
        },
    };
    let instructions = match get_opt_string(v, "instructions") {
        Some(s) => s,
        None => {
            return None;
        },
    };
    Some(InitializeResult { protocol_version, capabilities, server_info, instructions })
}

/// Whether the server's protocol version calls for a warning: any
/// version other than this client's own. The handshake still completes;
/// the mismatch is only logged.
pub fn version_mismatch(server_version: &str) -> (r: bool)
    ensures
        r == (server_version@ != spec_protocol_version()),
{
    !server_version.eq(crate::protocol::protocol_version())
}



/// A callable tool a server advertises.
pub struct Tool {
    pub name: String,
    pub description: Option<String>,
    pub input_schema: ToolInputSchema,
}

/// The argument shape of a tool, as the server describes it.
pub struct ToolInputSchema {
    pub schema_type: String,
    pub properties: Option<Vec<(String, JsonValue)>>,
    pub required: Option<Vec<String>>,
    pub additional_properties: Option<bool>,
}

/// The parsed property list matches the object's members.
pub open spec fn spec_props_ok(props: Seq<(String, JsonValue)>, m: Seq<(Seq<char>, JVal)>) -> bool {
    crate::json::members_view(props) == m
}

/// The parsed required list matches the array of strings.
pub open spec fn spec_required_ok(req: Seq<String>, elems: Seq<JVal>) -> bool {
    req.len() == elems.len() && forall|i: int|
        0 <= i < req.len() ==> elems[i] == JVal::Str(#[trigger] req[i]@)
}

/// An array of strings.
pub open spec fn spec_all_strings(elems: Seq<JVal>) -> bool {
    forall|i: int| 0 <= i < elems.len() ==> (#[trigger] elems[i]) is Str
}

/// A well-shaped tool object: a string `name`, an optional string
/// `description`, and an `inputSchema` object with a string `type`, an
/// optional `properties` object, an optional `required` array of
/// strings, and an optional boolean `additionalProperties`.
pub open spec fn spec_tool_shape_ok(v: JVal) -> bool {
    match v {
        JVal::Obj(m) => {
            &&& (match spec_obj_get(m, "name"@) {
                Some(nv) => nv is Str,
                None => false,
            })
            &&& spec_opt_string(m, "description"@) is Some
            &&& (match spec_obj_get(m, "inputSchema"@) {
                Some(sv) => match sv {
                    JVal::Obj(sm) => {
                        &&& (match spec_obj_get(sm, "type"@) {
                            Some(tv) => tv is Str,
                            None => false,
                        })
                        &&& (match spec_obj_get(sm, "properties"@) {
                            None => true,
                            Some(pv) => pv is Null || pv is Obj,
                        })
                        &&& (match spec_obj_get(sm, "required"@) {
                            None => true,
                            Some(rv) => rv is Null || (rv matches JVal::Arr(elems)
                                && spec_all_strings(elems)),
                        })
                        &&& spec_opt_bool(sm, "additionalProperties"@) is Some
                    },
                    _ => false,
                },
                None => false,
            })
        },
        _ => false,
    }
}

/// The parsed tool matches the object.
pub open spec fn spec_tool_ok(t: Tool, v: JVal) -> bool {
    match v {
        JVal::Obj(m) => {
            &&& spec_obj_get(m, "name"@) == Some(JVal::Str(t.name@))
            &&& spec_opt_string(m, "description"@) == Some(
                match t.description {
                    Some(d) => Some(d@),
                    None => None,
                },
            )
            &&& (match spec_obj_get(m, "inputSchema"@) {
                Some(sv) => match sv {
                    JVal::Obj(sm) => {
                        &&& spec_obj_get(sm, "type"@) == Some(
                            JVal::Str(t.input_schema.schema_type@),
                        )
                        &&& (match spec_obj_get(sm, "properties"@) {
                            None => t.input_schema.properties is None,
                            Some(pv) => match pv {
                                JVal::Null => t.input_schema.properties is None,
                                JVal::Obj(pm) => t.input_schema.properties matches Some(props)
                                    && spec_props_ok(props@, pm),
                                _ => false,
                            },
                        })
                        &&& (match spec_obj_get(sm, "required"@) {
                            None => t.input_schema.required is None,
                            Some(rv) => match rv {
                                JVal::Null => t.input_schema.required is None,
                                JVal::Arr(elems) => t.input_schema.required matches Some(req)
                                    && spec_required_ok(req@, elems),
                                _ => false,
                            },
                        })
                        &&& spec_opt_bool(sm, "additionalProperties"@) == Some(
                            t.input_schema.additional_properties,
                        )
                    },
                    _ => false,
                },
                None => false,
            })
        },
        _ => false,
    }
}

/// Copy an object's members.
fn clone_members(members: &Vec<(String, JsonValue)>) -> (r: Vec<(String, JsonValue)>)
    ensures
        crate::json::members_view(r@) == crate::json::members_view(members@),
{
    let n = members.len();
    let mut out: Vec<(String, JsonValue)> = Vec::new();
    let mut i: usize = 0;
    proof {
        crate::json::lemma_members_view(members@);
    }
    while i < n
        invariant
            0 <= i <= n,
            n == members@.len(),
            out@.len() == i,
            forall|k: int|
                0 <= k < i ==> (#[trigger] out@[k]).0@ == members@[k].0@ && jval_of(out@[k].1)
                    == jval_of(members@[k].1),
        decreases n - i,
    {
        let key = members[i].0.clone();
        let val = crate::detect::clone_json(&members[i].1);
        out.push((key, val));
        i = i + 1;
    }
    proof {
        crate::json::lemma_members_view(out@);
        assert(crate::json::members_view(out@) =~= crate::json::members_view(members@));
    }
    out
}

/// Parse one advertised tool.
#[verifier::loop_isolation(false)]
pub fn parse_tool(v: &JsonValue) -> (r: Option<Tool>)
    ensures
        match r {
            Some(t) => spec_tool_ok(t, v.deep_view()),
            None => !spec_tool_shape_ok(v.deep_view()),
        },
{
    if !(matches!(v, JsonValue::Obj(_))) {
        return None;
    }
    let name = match v.get("name") {
        Some(nv) => match nv.as_str() {
            Some(s) => s.clone(),
            None => {
                return None;
            },
        },
        None => {
            return None;
        },
    };
    let description = match get_opt_string(v, "description") {
        Some(d) => d,
        None => {
            return None;
        },
    };
    let schema_val = match v.get("inputSchema") {
        Some(sv) => sv,
        None => {
            return None;
        },
    };
    if !(matches!(schema_val, JsonValue::Obj(_))) {
        return None;
    }
    let schema_type = match schema_val.get("type") {
        Some(tv) => match tv.as_str() {
            Some(s) => s.clone(),
            None => {
                return None;
            },
        },
        None => {
            return None;
        },
    };
    let properties = match schema_val.get("properties") {
        None => None,
        Some(pv) => match pv {
            JsonValue::Null => None,
            JsonValue::Obj(pm) => Some(clone_members(pm)),
            _ => {
                return None;
            },
        },
    };
    let required = match schema_val.get("required") {
        None => None,
        Some(rv) => match rv {
            JsonValue::Null => None,
            JsonValue::Arr(elems) => {
                let n = elems.len();
                let mut req: Vec<String> = Vec::new();
                let mut i: usize = 0;
                proof {
                    crate::json::lemma_elems_view(elems@);
                }
                while i < n
                    invariant
                        0 <= i <= n,
                        n == elems@.len(),
                        req@.len() == i,
                        forall|k: int|
                            0 <= k < n ==> crate::json::elems_view(elems@)[k] == jval_of(
                                elems@[k],
                            ),
                        crate::json::elems_view(elems@).len() == n,
                        forall|k: int|
                            0 <= k < i ==> crate::json::elems_view(elems@)[k] == JVal::Str(
                                #[trigger] req@[k]@,
                            ),
                    decreases n - i,
                {
                    match elems[i].as_str() {
                        Some(s) => {
                            req.push(s.clone());
                        },
                        None => {
                            proof {
                                assert(!(crate::json::elems_view(elems@)[i as int] is Str));
                            }
                            return None;
                        },
                    }
                    i = i + 1;
                }
                Some(req)
            },
            _ => {
                return None;
            },
        },
    };
    let additional_properties = match get_opt_bool(schema_val, "additionalProperties") {
        Some(b) => b,
        None => {
            return None;
        },
    };
    Some(
        Tool {
            name,
            description,
            input_schema: ToolInputSchema {
                schema_type,
                properties,
                required,
                additional_properties,
            },
        },
    )
}

/// A well-shaped `tools/list` result: an array of well-shaped tools and
/// an optional string `nextCursor`.
pub open spec fn spec_tools_list_shape_ok(v: JVal) -> bool {
    match v {
        JVal::Obj(m) => {
            &&& (match spec_obj_get(m, "tools"@) {
                Some(tv) => match tv {
                    JVal::Arr(elems) => forall|i: int|
                        0 <= i < elems.len() ==> spec_tool_shape_ok(#[trigger] elems[i]),
                    _ => false,
                },
                None => false,
            })
            &&& spec_opt_string(m, "nextCursor"@) is Some
        },
        _ => false,
    }
}

/// What a `tools/list` reply carries: the advertised tools and the
/// pagination cursor.
pub struct ListToolsResult {
    pub tools: Vec<Tool>,
    pub next_cursor: Option<String>,
}

/// Parse the body of a `tools/list` reply: the advertised tools and the
/// pagination cursor, which this client does not follow but reports.
#[verifier::loop_isolation(false)]
pub fn parse_tools_list(v: &JsonValue) -> (r: Option<ListToolsResult>)
    ensures
        match r {
            Some(p) => v.deep_view() matches JVal::Obj(m) && (match spec_obj_get(m, "tools"@) {
                Some(tv) => match tv {
                    JVal::Arr(elems) => p.tools@.len() == elems.len() && forall|i: int|
                        0 <= i < elems.len() ==> spec_tool_ok(#[trigger] p.tools@[i], elems[i]),
                    _ => false,
                },
                None => false,
            }) && spec_opt_string(m, "nextCursor"@) == Some(
                match p.next_cursor {
                    Some(c) => Some(c@),
                    None => None,
                },
            ),
            None => !spec_tools_list_shape_ok(v.deep_view()),
        },
{
    if !(matches!(v, JsonValue::Obj(_))) {
        return None;
    }
    let elems = match v.get("tools") {
        Some(tv) => match tv {
            JsonValue::Arr(elems) => elems,
            _ => {
                return None;
            },
        },
        None => {
            return None;
        },
    };
    let n = elems.len();
    let mut tools: Vec<Tool> = Vec::new();
    let mut i: usize = 0;
    proof {
        crate::json::lemma_elems_view(elems@);
    }
    while i < n
        invariant
            0 <= i <= n,
            n == elems@.len(),
            tools@.len() == i,
            crate::json::elems_view(elems@).len() == n,
            forall|k: int|
                0 <= k < n ==> crate::json::elems_view(elems@)[k] == jval_of(elems@[k]),
            forall|k: int|
                0 <= k < i ==> spec_tool_ok(
                    #[trigger] tools@[k],
                    crate::json::elems_view(elems@)[k],
                ),
        decreases n - i,
    {
        match parse_tool(&elems[i]) {
            Some(t) => {
                tools.push(t);
            },
            None => {
                proof {
                    assert(!spec_tool_shape_ok(crate::json::elems_view(elems@)[i as int]));
                }
                return None;
            },
        }
        i = i + 1;
    }
    let cursor = match get_opt_string(v, "nextCursor") {
        Some(c) => c,
        None => {
            return None;
        },
    };
    Some(ListToolsResult { tools, next_cursor: cursor })
}

/// One piece of a tool call's result.
pub enum Content {
    Text { text: String },
    Image { data: String, mime_type: String },
    Resource { resource: ResourceContents },
}

/// A resource a tool result points at.
pub struct ResourceContents {
    pub uri: String,
    pub mime_type: Option<String>,
    pub text: Option<String>,
    pub blob: Option<String>,
}

/// What a `tools/call` reply carries.
pub struct CallToolResult {
    pub content: Vec<Content>,
    pub is_error: Option<bool>,
}

/// The displayable text of one content piece: its text, or a placeholder
/// naming the image type or the resource.
pub open spec fn spec_content_text(c: Content) -> Seq<char> {
    match c {
        Content::Text { text } => text@ + "\n"@,
        Content::Image { mime_type, .. } => "[Image: "@ + mime_type@ + "]\n"@,
        Content::Resource { resource } => "[Resource: "@ + resource.uri@ + "]\n"@,
    }
}

/// The concatenated text of a content list.
pub open spec fn spec_contents_text(cs: Seq<Content>) -> Seq<char>
    decreases cs.len(),
{
    if cs.len() == 0 {
        Seq::empty()
    } else {
        spec_content_text(cs[0]) + spec_contents_text(cs.drop_first())
    }
}

/// A tool execution's outcome as the orchestrator consumes it.
pub struct ToolResult {
    pub name: String,
    pub success: bool,
    pub output: String,
}

proof fn lemma_contents_text_snoc(cs: Seq<Content>, c: Content)
    ensures
        spec_contents_text(cs.push(c)) == spec_contents_text(cs) + spec_content_text(c),
    decreases cs.len(),
{
    let p = cs.push(c);
    assert(p.len() == cs.len() + 1);
    if cs.len() == 0 {
        assert(p[0] == c);
        assert(p.drop_first() =~= Seq::<Content>::empty());
        assert(spec_contents_text(p.drop_first()) =~= Seq::<char>::empty());
        assert(spec_contents_text(p) == spec_content_text(p[0]) + spec_contents_text(
            p.drop_first(),
        ));
        assert(spec_contents_text(cs) =~= Seq::<char>::empty());
        assert(spec_contents_text(p) =~= spec_contents_text(cs) + spec_content_text(c));
    } else {
        lemma_contents_text_snoc(cs.drop_first(), c);
        assert(p[0] == cs[0]);
        assert(p.drop_first() =~= cs.drop_first().push(c));
        assert(spec_contents_text(p) == spec_content_text(p[0]) + spec_contents_text(
            p.drop_first(),
        ));
        assert(spec_contents_text(cs) == spec_content_text(cs[0]) + spec_contents_text(
            cs.drop_first(),
        ));
        assert(spec_content_text(cs[0]) + (spec_contents_text(cs.drop_first())
            + spec_content_text(c)) =~= (spec_content_text(cs[0]) + spec_contents_text(
            cs.drop_first(),
        )) + spec_content_text(c));
    }
}

impl ToolResult {
    /// Flatten a call's content into one text and a success flag: the
    /// call failed only when the server said `isError: true`. The name
    /// is filled in by the caller.
    pub fn from(result: CallToolResult) -> (r: ToolResult)
        ensures
            r.name@.len() == 0,
            r.success == !(result.is_error == Some(true)),
            r.output@ == spec_contents_text(result.content@),
    {
        let success = match result.is_error {
            Some(b) => !b,
            None => true,
        };
        let mut output = String::new();
        let n = result.content.len();
        let mut i: usize = 0;
        while i < n
            invariant
                0 <= i <= n,
                n == result.content@.len(),
                output@ == spec_contents_text(result.content@.take(i as int)),
            decreases n - i,
        {
            proof {
                assert(result.content@.take(i as int).push(result.content@[i as int])
                    =~= result.content@.take(i as int + 1));
                lemma_contents_text_snoc(
                    result.content@.take(i as int),
                    result.content@[i as int],
                );
            }
            match &result.content[i] {
                Content::Text { text } => {
                    output.append(text.as_str());
                    output.append("\n");
                },
                Content::Image { data: _, mime_type } => {
                    output.append("[Image: ");
                    output.append(mime_type.as_str());
                    output.append("]\n");
                },
                Content::Resource { resource } => {
                    output.append("[Resource: ");
                    output.append(resource.uri.as_str());
                    output.append("]\n");
                },
            }
            proof {
                assert(output@ =~= spec_contents_text(result.content@.take(i as int + 1)));
            }
            i = i + 1;
        }
        proof {
            assert(result.content@.take(n as int) =~= result.content@);
        }
        ToolResult { name: String::new(), success, output }
    }
}

/// A well-shaped content piece: a `type` of `text`, `image` or
/// `resource` with that variant's members.
pub open spec fn spec_content_shape_ok(v: JVal) -> bool {
    match v {
        JVal::Obj(m) => match spec_obj_get(m, "type"@) {
            Some(tv) => {
                if tv == JVal::Str("text"@) {
                    match spec_obj_get(m, "text"@) {
                        Some(x) => x is Str,
                        None => false,
                    }
                } else if tv == JVal::Str("image"@) {
                    (match spec_obj_get(m, "data"@) {
                        Some(x) => x is Str,
                        None => false,
                    }) && (match spec_obj_get(m, "mimeType"@) {
                        Some(x) => x is Str,
                        None => false,
                    })
                } else if tv == JVal::Str("resource"@) {
                    match spec_obj_get(m, "resource"@) {
                        Some(rv) => match rv {
                            JVal::Obj(rm) => (match spec_obj_get(rm, "uri"@) {
                                Some(x) => x is Str,
                                None => false,
                            }) && spec_opt_string(rm, "mimeType"@) is Some && spec_opt_string(
                                rm,
                                "text"@,
                            ) is Some && spec_opt_string(rm, "blob"@) is Some,
                            _ => false,
                        },
                        None => false,
                    }
                } else {
                    false
                }
            },
            None => false,
        },
        _ => false,
    }
}

/// The parsed content piece matches the object.
pub open spec fn spec_content_ok(c: Content, v: JVal) -> bool {
    match v {
        JVal::Obj(m) => match c {
            Content::Text { text } => spec_obj_get(m, "type"@) == Some(JVal::Str("text"@))
                && spec_obj_get(m, "text"@) == Some(JVal::Str(text@)),
            Content::Image { data, mime_type } => spec_obj_get(m, "type"@) == Some(
                JVal::Str("image"@),
            ) && spec_obj_get(m, "data"@) == Some(JVal::Str(data@)) && spec_obj_get(
                m,
                "mimeType"@,
            ) == Some(JVal::Str(mime_type@)),
            Content::Resource { resource } => spec_obj_get(m, "type"@) == Some(
                JVal::Str("resource"@),
            ) && (match spec_obj_get(m, "resource"@) {
                Some(rv) => match rv {
                    JVal::Obj(rm) => spec_obj_get(rm, "uri"@) == Some(JVal::Str(resource.uri@))
                        && spec_opt_string(rm, "mimeType"@) == Some(
                        match resource.mime_type {
                            Some(s) => Some(s@),
                            None => None,
                        },
                    ) && spec_opt_string(rm, "text"@) == Some(
                        match resource.text {
                            Some(s) => Some(s@),
                            None => None,
                        },
                    ) && spec_opt_string(rm, "blob"@) == Some(
                        match resource.blob {
                            Some(s) => Some(s@),
                            None => None,
                        },
                    ),
                    _ => false,
                },
                None => false,
            }),
        },
        _ => false,
    }
}

/// Parse one content piece of a call result.
fn parse_content(v: &JsonValue) -> (r: Option<Content>)
    ensures
        match r {
            Some(c) => spec_content_ok(c, v.deep_view()),
            None => !spec_content_shape_ok(v.deep_view()),
        },
{
    proof {
        reveal_strlit("text");
        reveal_strlit("image");
        reveal_strlit("resource");
        assert("text"@.len() == 4);
        assert("image"@.len() == 5);
        assert("resource"@.len() == 8);
    }
    if !(matches!(v, JsonValue::Obj(_))) {
        return None;
    }
    let kind = match v.get("type") {
        Some(tv) => match tv.as_str() {
            Some(s) => s.clone(),
            None => {
                return None;
            },
        },
        None => {
            return None;
        },
    };
    if kind.as_str().eq("text") {
        match v.get("text") {
            Some(x) => match x.as_str() {
                Some(s) => Some(Content::Text { text: s.clone() }),
                None => None,
            },
            None => None,
        }
    } else if kind.as_str().eq("image") {
        let data = match v.get("data") {
            Some(x) => match x.as_str() {
                Some(s) => s.clone(),
                None => {
                    return None;
                },
            },
            None => {
                return None;
            },
        };
        match v.get("mimeType") {
            Some(x) => match x.as_str() {
                Some(s) => Some(Content::Image { data, mime_type: s.clone() }),
                None => None,
            },
            None => None,
        }
    } else if kind.as_str().eq("resource") {
        let rv = match v.get("resource") {
            Some(rv) => rv,
            None => {
                return None;
            },
        };
        if !(matches!(rv, JsonValue::Obj(_))) {
            return None;
        }
        let uri = match rv.get("uri") {
            Some(x) => match x.as_str() {
                Some(s) => s.clone(),
                None => {
                    return None;
                },
            },
            None => {
                return None;
            },
        };
        let mime_type = match get_opt_string(rv, "mimeType") {
            Some(s) => s,
            None => {
                return None;
            },
        };
        let text = match get_opt_string(rv, "text") {
            Some(s) => s,
            None => {
                return None;
            },
        };
        let blob = match get_opt_string(rv, "blob") {
            Some(s) => s,
            None => {
                return None;
            },
        };
        Some(
            Content::Resource {
                resource: ResourceContents { uri, mime_type, text, blob },
            },
        )
    } else {
        None
    }
}

/// A well-shaped `tools/call` result: a `content` array of well-shaped
/// pieces and an optional boolean `isError`.
pub open spec fn spec_call_result_shape_ok(v: JVal) -> bool {
    match v {
        JVal::Obj(m) => {
            &&& (match spec_obj_get(m, "content"@) {
                Some(cv) => match cv {
                    JVal::Arr(elems) => forall|i: int|
                        0 <= i < elems.len() ==> spec_content_shape_ok(#[trigger] elems[i]),
                    _ => false,
                },
                None => false,
            })
            &&& spec_opt_bool(m, "isError"@) is Some
        },
        _ => false,
    }
}

/// Parse the body of a `tools/call` reply.
#[verifier::loop_isolation(false)]
pub fn parse_call_tool_result(v: &JsonValue) -> (r: Option<CallToolResult>)
    ensures
        match r {
            Some(res) => v.deep_view() matches JVal::Obj(m) && (match spec_obj_get(
                m,
                "content"@,
            ) {
                Some(cv) => match cv {
                    JVal::Arr(elems) => res.content@.len() == elems.len() && forall|i: int|
                        0 <= i < elems.len() ==> spec_content_ok(
                            #[trigger] res.content@[i],
                            elems[i],
                        ),
                    _ => false,
                },
                None => false,
            }) && spec_opt_bool(m, "isError"@) == Some(res.is_error),
            None => !spec_call_result_shape_ok(v.deep_view()),
        },
{
    if !(matches!(v, JsonValue::Obj(_))) {
        return None;
    }
    let elems = match v.get("content") {
        Some(cv) => match cv {
            JsonValue::Arr(elems) => elems,
            _ => {
                return None;
            },
        },
        None => {
            return None;
        },
    };
    let n = elems.len();
    let mut content: Vec<Content> = Vec::new();
    let mut i: usize = 0;
    proof {
        crate::json::lemma_elems_view(elems@);
    }
    while i < n
        invariant
            0 <= i <= n,
            n == elems@.len(),
            content@.len() == i,
            crate::json::elems_view(elems@).len() == n,
            forall|k: int|
                0 <= k < n ==> crate::json::elems_view(elems@)[k] == jval_of(elems@[k]),
            forall|k: int|
                0 <= k < i ==> spec_content_ok(
                    #[trigger] content@[k],
                    crate::json::elems_view(elems@)[k],
                ),
        decreases n - i,
    {
        match parse_content(&elems[i]) {
            Some(c) => {
                content.push(c);
            },
            None => {
                proof {
                    assert(!spec_content_shape_ok(crate::json::elems_view(elems@)[i as int]));
                }
                return None;
            },
        }
        i = i + 1;
    }
    let is_error = match get_opt_bool(v, "isError") {
        Some(b) => b,
        None => {
            return None;
        },
    };
    Some(CallToolResult { content, is_error })
}

/// The wire params of a `tools/call` request.
pub open spec fn spec_call_params_jval(name: Seq<char>, args: JVal) -> JVal {
    JVal::Obj(seq![("name"@, JVal::Str(name)), ("arguments"@, args)])
}

/// Build the params of a `tools/call` request.
pub fn call_tool_params(name: &str, arguments: JsonValue) -> (r: JsonValue)
    ensures
        jval_of(r) == spec_call_params_jval(name@, jval_of(arguments)),
{
    let mut members: Vec<(String, JsonValue)> = Vec::new();
    members.push(("name".to_owned(), JsonValue::Str(name.to_owned())));
    members.push(("arguments".to_owned(), arguments));
    let v = JsonValue::Obj(members);
    proof {
        crate::json::lemma_members_view(v->Obj_0@);
        assert(crate::json::members_view(v->Obj_0@) =~= spec_call_params_jval(
            name@,
            jval_of(v->Obj_0@[1].1),
        )->Obj_0);
    }
    v
}

} // verus!
