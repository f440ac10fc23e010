//! The multi-server tool registry as data: which server owns a tool,
//! the flattened tool listing, the choice of a write tool, and the
//! sample invocations shown to the model.
//!
//! Connections themselves live outside; the registry decisions here are
//! pure and verified. Tool-name resolution takes the first server in
//! registration order whose catalog holds the name.

use vstd::prelude::*;
use crate::detect::{
    spec_detect, spec_json_calls, spec_xml_calls, spec_xml_args, start_mark, xml_open_mark,
    name_eq_mark, quote_mark, xml_close_mark,
};
use crate::text::{occurs_at, spec_find, ws_end, lemma_spec_find, lemma_ws_end};
use crate::json::json_parsed;
use vstd::string::StringExecFns;
use crate::json::{json_text_pretty, json_write_pretty, jval_of, JVal, JsonValue};
use crate::session::Tool;
use crate::text::{contains_chars, contains_seq, lower_of, str_to_chars, to_lowercase};

verus! {

/// One connected server: its configured name and the tools it advertises.
pub struct ServerEntry {
    pub name: String,
    pub tools: Vec<Tool>,
}

/// The tool catalogs of all connected servers, in registration order.
pub struct ToolCatalog {
    pub servers: Vec<ServerEntry>,
}

/// A server entry advertises a tool of this name.
pub open spec fn spec_has_tool(e: ServerEntry, name: Seq<char>) -> bool {
    exists|k: int| 0 <= k < e.tools@.len() && (#[trigger] e.tools@[k]).name@ == name
}

impl ToolCatalog {
    /// The first server, in registration order, whose catalog holds a
    /// tool of this name.
    #[verifier::loop_isolation(false)]
    pub fn find_server_for_tool(&self, name: &str) -> (r: Option<usize>)
        ensures
            match r {
                Some(i) => i < self.servers@.len() && spec_has_tool(self.servers@[i as int], name@)
                    && forall|j: int|
                    0 <= j < i ==> !spec_has_tool(#[trigger] self.servers@[j], name@),
                None => forall|j: int|
                    0 <= j < self.servers@.len() ==> !spec_has_tool(
                        #[trigger] self.servers@[j],
                        name@,
                    ),
            },
    {
        let n = self.servers.len();
        let mut i: usize = 0;
        while i < n
            invariant
                0 <= i <= n,
                n == self.servers@.len(),
                forall|j: int| 0 <= j < i ==> !spec_has_tool(#[trigger] self.servers@[j], name@),
            decreases n - i,
        {
            let m = self.servers[i].tools.len();
            let mut k: usize = 0;
            while k < m
                invariant
                    0 <= k <= m,
                    i < n == self.servers@.len(),
                    m == self.servers@[i as int].tools@.len(),
                    forall|t: int|
                        0 <= t < k ==> (#[trigger] self.servers@[i as int].tools@[t]).name@
                            != name@,
                decreases m - k,
            {
                if self.servers[i].tools[k].name.as_str().eq(name) {
                    return Some(i);
                }
                k = k + 1;
            }
            proof {
                assert(!spec_has_tool(self.servers@[i as int], name@));
            }
            i = i + 1;
        }
        None
    }

    /// All advertised tools as (server name, tool) pairs, servers in
    /// registration order and each server's tools in catalog order.
    #[verifier::loop_isolation(false)]
    pub fn list_all_tools<'a>(&'a self) -> (r: Vec<(&'a str, &'a Tool)>)
        ensures
            r@.len() == spec_listing(self.servers@).len(),
            forall|p: int|
                0 <= p < r@.len() ==> ((#[trigger] r@[p]).0@, *r@[p].1) == spec_listing(
                    self.servers@,
                )[p],
    {
        let n = self.servers.len();
        let mut out: Vec<(&'a str, &'a Tool)> = Vec::new();
        let mut i: usize = 0;
        proof {
            lemma_listing_len(self.servers@);
        }
        while i < n
            invariant
                0 <= i <= n,
                n == self.servers@.len(),
                out@.len() == spec_listing(self.servers@.take(i as int)).len(),
                forall|p: int|
                    0 <= p < out@.len() ==> ((#[trigger] out@[p]).0@, *out@[p].1) == spec_listing(
                        self.servers@.take(i as int),
                    )[p],
            decreases n - i,
        {
            let m = self.servers[i].tools.len();
            let mut k: usize = 0;
            proof {
                lemma_listing_snoc(self.servers@.take(i as int), self.servers@[i as int]);
                assert(self.servers@.take(i as int).push(self.servers@[i as int])
                    =~= self.servers@.take(i as int + 1));
                lemma_listing_len(self.servers@.take(i as int));
                lemma_listing_len(self.servers@.take(i as int + 1));
            }
            while k < m
                invariant
                    0 <= k <= m,
                    i < n,
                    m == self.servers@[i as int].tools@.len(),
                    out@.len() == spec_listing(self.servers@.take(i as int)).len() + k,
                    forall|p: int|
                        0 <= p < out@.len() ==> ((#[trigger] out@[p]).0@, *out@[p].1)
                            == spec_listing(self.servers@.take(i as int + 1))[p],
                decreases m - k,
            {
                out.push((self.servers[i].name.as_str(), &self.servers[i].tools[k]));
                k = k + 1;
            }
            i = i + 1;
        }
        proof {
            assert(self.servers@.take(n as int) =~= self.servers@);
        }
        out
    }
}

/// The (server name, tool) pairs of one server.
pub open spec fn spec_server_pairs(e: ServerEntry) -> Seq<(Seq<char>, Tool)> {
    Seq::new(e.tools@.len(), |k: int| (e.name@, e.tools@[k]))
}

/// The flattened (server name, tool) listing of all servers, in order.
pub open spec fn spec_listing(servers: Seq<ServerEntry>) -> Seq<(Seq<char>, Tool)>
    decreases servers.len(),
{
    if servers.len() == 0 {
        Seq::empty()
    } else {
        spec_server_pairs(servers[0]) + spec_listing(servers.drop_first())
    }
}

proof fn lemma_listing_len(servers: Seq<ServerEntry>)
    ensures
        spec_listing(servers).len() == spec_tool_count(servers),
    decreases servers.len(),
{
    if servers.len() > 0 {
        lemma_listing_len(servers.drop_first());
    }
}

proof fn lemma_listing_snoc(servers: Seq<ServerEntry>, e: ServerEntry)
    ensures
        spec_listing(servers.push(e)) == spec_listing(servers) + spec_server_pairs(e),
    decreases servers.len(),
{
    let p = servers.push(e);
    assert(p.len() == servers.len() + 1);
    if servers.len() == 0 {
        assert(p[0] == e);
        assert(p.drop_first() =~= Seq::<ServerEntry>::empty());
        assert(spec_listing(p.drop_first()) =~= Seq::<(Seq<char>, Tool)>::empty());
        assert(spec_server_pairs(e) + Seq::<(Seq<char>, Tool)>::empty() =~= spec_server_pairs(e));
        assert(spec_listing(servers) =~= Seq::<(Seq<char>, Tool)>::empty());
        assert(spec_listing(p) =~= spec_listing(servers) + spec_server_pairs(e));
    } else {
        lemma_listing_snoc(servers.drop_first(), e);
        assert(p[0] == servers[0]);
        assert(p.drop_first() =~= servers.drop_first().push(e));
        assert(spec_server_pairs(servers[0]) + (spec_listing(servers.drop_first())
            + spec_server_pairs(e)) =~= (spec_server_pairs(servers[0]) + spec_listing(
            servers.drop_first(),
        )) + spec_server_pairs(e));
    }
}

/// How many tools all servers advertise together.
/// How many tools all servers advertise together.
pub open spec fn spec_tool_count(servers: Seq<ServerEntry>) -> int
    decreases servers.len(),
{
    if servers.len() == 0 {
        0
    } else {
        servers[0].tools@.len() + spec_tool_count(servers.drop_first())
    }
}

proof fn lemma_tool_count_snoc(servers: Seq<ServerEntry>, e: ServerEntry)
    ensures
        spec_tool_count(servers.push(e)) == spec_tool_count(servers) + e.tools@.len(),
    decreases servers.len(),
{
    let p = servers.push(e);
    assert(p.len() == servers.len() + 1);
    if servers.len() == 0 {
        assert(p[0] == e);
        assert(p.drop_first() =~= Seq::<ServerEntry>::empty());
        assert(spec_tool_count(p.drop_first()) == 0);
    } else {
        lemma_tool_count_snoc(servers.drop_first(), e);
        assert(p[0] == servers[0]);
        assert(p.drop_first() =~= servers.drop_first().push(e));
    }
}

/// A property list holds a key of this name.
pub open spec fn spec_has_prop(props: Seq<(String, JsonValue)>, key: Seq<char>) -> bool {
    exists|i: int| 0 <= i < props.len() && (#[trigger] props[i]).0@ == key
}

/// The preference rank of a tool as the write tool: 0 for a name that
/// is exactly `write_file` or `writefile` once lowered, 1 for a lowered
/// name holding both `write` and `file`, 2 for a tool whose properties
/// hold `path` and `content`, and none otherwise.
pub open spec fn spec_write_rank(t: Tool) -> Option<int> {
    let low = lower_of(t.name@);
    if low == "write_file"@ || low == "writefile"@ {
        Some(0)
    } else if contains_seq(low, "write"@) && contains_seq(low, "file"@) {
        Some(1)
    } else {
        match t.input_schema.properties {
            Some(props) => if spec_has_prop(props@, "path"@) && spec_has_prop(
                props@,
                "content"@,
            ) {
                Some(2)
            } else {
                None
            },
            None => None,
        }
    }
}

/// The name of the best write tool among the pairs, scanning in order
/// and keeping the first tool of the best (lowest) rank.
pub open spec fn spec_select_write_tool(tools: Seq<Tool>) -> Option<(int, Seq<char>)>
    decreases tools.len(),
{
    if tools.len() == 0 {
        None
    } else {
        let rest = spec_select_write_tool(tools.drop_first());
        match spec_write_rank(tools[0]) {
            Some(r0) => match rest {
                Some(b) => if b.0 < r0 {
                    // A strictly better rank later keeps the later tool;
                    // scanning order makes this the first of the best.
                    Some(b)
                } else {
                    Some((r0, tools[0].name@))
                },
                None => Some((r0, tools[0].name@)),
            },
            None => rest,
        }
    }
}

fn has_prop(props: &Vec<(String, JsonValue)>, key: &str) -> (r: bool)
    ensures
        r == spec_has_prop(props@, key@),
{
    let n = props.len();
    let mut i: usize = 0;
    while i < n
        invariant
            0 <= i <= n,
            n == props@.len(),
            forall|k: int| 0 <= k < i ==> (#[trigger] props@[k]).0@ != key@,
        decreases n - i,
    {
        if props[i].0.as_str().eq(key) {
            return true;
        }
        i = i + 1;
    }
    false
}

/// The rank of one tool as a candidate write tool.
fn write_rank(t: &Tool) -> (r: Option<usize>)
    ensures
        match r {
            Some(v) => spec_write_rank(*t) == Some(v as int),
            None => spec_write_rank(*t) is None,
        },
{
    let low = to_lowercase(t.name.as_str());
    let low_chars = str_to_chars(low.as_str());
    if low.as_str().eq("write_file") || low.as_str().eq("writefile") {
        Some(0)
    } else if contains_chars(&low_chars, &str_to_chars("write")) && contains_chars(
        &low_chars,
        &str_to_chars("file"),
    ) {
        Some(1)
    } else {
        match &t.input_schema.properties {
            Some(props) => {
                if has_prop(props, "path") && has_prop(props, "content") {
                    Some(2)
                } else {
                    None
                }
            },
            None => None,
        }
    }
}

/// Pick the tool to route file writes through: scanning the advertised
/// tools in order, the first tool of the best rank wins.
#[verifier::loop_isolation(false)]
pub fn select_write_tool_name(tools: &Vec<(&str, &Tool)>) -> (r: Option<String>)
    ensures
        match r {
            Some(name) => spec_select_write_tool(spec_tools_of(tools@)) matches Some(b) && b.1
                == name@,
            None => spec_select_write_tool(spec_tools_of(tools@)) is None,
        },
{
    let ghost ts = spec_tools_of(tools@);
    let n = tools.len();
    let mut best_rank: usize = 0;
    let mut best_name: Option<String> = None;
    let mut i: usize = n;
    proof {
        lemma_tools_of(tools@);
        assert(ts.skip(n as int) =~= Seq::<Tool>::empty());
    }
    while i > 0
        invariant
            0 <= i <= n,
            n == tools@.len(),
            ts == spec_tools_of(tools@),
            ts.len() == n,
            forall|k: int| 0 <= k < n ==> ts[k] == *(#[trigger] tools@[k]).1,
            match best_name {
                Some(name) => spec_select_write_tool(ts.skip(i as int)) matches Some(b) && b.0
                    == best_rank && b.1 == name@,
                None => spec_select_write_tool(ts.skip(i as int)) is None,
            },
        decreases i,
    {
        proof {
            assert(ts.skip(i as int - 1)[0] == ts[i as int - 1]);
            assert(ts.skip(i as int - 1).drop_first() =~= ts.skip(i as int));
        }
        match write_rank(tools[i - 1].1) {
            Some(rk) => {
                let keep_old = match &best_name {
                    Some(_) => best_rank < rk,
                    None => false,
                };
                if !keep_old {
                    best_rank = rk;
                    best_name = Some(tools[i - 1].1.name.clone());
                }
            },
            None => {},
        }
        i = i - 1;
    }
    proof {
        assert(ts.skip(0) =~= ts);
    }
    best_name
}

/// The tools of a listing, without the server names.
pub open spec fn spec_tools_of(pairs: Seq<(&str, &Tool)>) -> Seq<Tool> {
    Seq::new(pairs.len(), |i: int| *pairs[i].1)
}

proof fn lemma_tools_of(pairs: Seq<(&str, &Tool)>)
    ensures
        spec_tools_of(pairs).len() == pairs.len(),
        forall|k: int| 0 <= k < pairs.len() ==> spec_tools_of(pairs)[k] == *(#[trigger] pairs[k]).1,
{
}



/// The sample value shown for one schema: its `default` when given,
/// else its first `enum` entry, else a placeholder by `type`; an array
/// nests one sample of its `items`, down to `depth` levels.
pub open spec fn spec_sample_value(schema: JVal, depth: int) -> JVal
    decreases depth,
{
    match schema {
        JVal::Obj(m) => {
            match crate::json::spec_obj_get(m, "default"@) {
                Some(d) => d,
                None => {
                    match crate::json::spec_obj_get(m, "enum"@) {
                        Some(ev) => match ev {
                            JVal::Arr(elems) => if elems.len() > 0 {
                                elems[0]
                            } else {
                                spec_sample_by_type(m, depth)
                            },
                            _ => spec_sample_by_type(m, depth),
                        },
                        None => spec_sample_by_type(m, depth),
                    }
                },
            }
        },
        _ => JVal::Str("value"@),
    }
}

pub open spec fn spec_sample_by_type(m: Seq<(Seq<char>, JVal)>, depth: int) -> JVal
    decreases depth, 0int,
{
    match crate::json::spec_obj_get(m, "type"@) {
        Some(tv) => {
            if tv == JVal::Str("string"@) {
                JVal::Str("example"@)
            } else if tv == JVal::Str("integer"@) || tv == JVal::Str("number"@) {
                JVal::Int(0)
            } else if tv == JVal::Str("boolean"@) {
                JVal::Bool(true)
            } else if tv == JVal::Str("array"@) {
                match crate::json::spec_obj_get(m, "items"@) {
                    Some(items) => if depth > 0 {
                        JVal::Arr(seq![spec_sample_value(items, depth - 1)])
                    } else {
                        JVal::Arr(Seq::empty())
                    },
                    None => JVal::Arr(Seq::empty()),
                }
            } else if tv == JVal::Str("object"@) {
                JVal::Obj(Seq::empty())
            } else {
                JVal::Str("value"@)
            }
        },
        None => JVal::Str("value"@),
    }
}

/// The sample value for one argument schema, nesting at most `depth`
/// array levels.
pub fn sample_value_for_schema(schema: &JsonValue, depth: u8) -> (r: JsonValue)
    ensures
        jval_of(r) == spec_sample_value(jval_of(*schema), depth as int),
    decreases depth,
{
    proof {
        reveal_strlit("string");
        reveal_strlit("integer");
        reveal_strlit("number");
        reveal_strlit("boolean");
        reveal_strlit("array");
        reveal_strlit("object");
        reveal_strlit("value");
        reveal_strlit("example");
    }
    if !(matches!(schema, JsonValue::Obj(_))) {
        return JsonValue::Str("value".to_owned());
    }
    match schema.get("default") {
        Some(d) => {
            return crate::detect::clone_json(d);
        },
        None => {},
    }
    match schema.get("enum") {
        Some(ev) => match ev {
            JsonValue::Arr(elems) => {
                if elems.len() > 0 {
                    proof {
                        crate::json::lemma_elems_view(elems@);
                    }
                    return crate::detect::clone_json(&elems[0]);
                }
            },
            _ => {},
        },
        None => {},
    }
    let kind: Option<String> = match schema.get("type") {
        Some(tv) => match tv.as_str() {
            Some(sv) => Some(sv.clone()),
            None => None,
        },
        None => None,
    };
    match kind {
        Some(k) => {
            if k.as_str().eq("string") {
                JsonValue::Str("example".to_owned())
            } else if k.as_str().eq("integer") || k.as_str().eq("number") {
                JsonValue::Int(0)
            } else if k.as_str().eq("boolean") {
                JsonValue::Bool(true)
            } else if k.as_str().eq("array") {
                match schema.get("items") {
                    Some(items) => {
                        if depth > 0 {
                            let inner = sample_value_for_schema(items, depth - 1);
                            let mut elems: Vec<JsonValue> = Vec::new();
                            elems.push(inner);
                            let r = JsonValue::Arr(elems);
                            proof {
                                crate::json::lemma_elems_view(r->Arr_0@);
                                assert(crate::json::elems_view(r->Arr_0@) =~= seq![
                                    spec_sample_value(
                                        crate::json::spec_obj_get(
                                            jval_of(*schema)->Obj_0,
                                            "items"@,
                                        )->0,
                                        depth - 1,
                                    ),
                                ]);
                            }
                            r
                        } else {
                            let r = JsonValue::Arr(Vec::new());
                            proof {
                                crate::json::lemma_elems_view(r->Arr_0@);
                                assert(crate::json::elems_view(r->Arr_0@) =~= Seq::<JVal>::empty());
                            }
                            r
                        }
                    },
                    None => {
                        let r = JsonValue::Arr(Vec::new());
                        proof {
                            crate::json::lemma_elems_view(r->Arr_0@);
                            assert(crate::json::elems_view(r->Arr_0@) =~= Seq::<JVal>::empty());
                        }
                        r
                    },
                }
            } else if k.as_str().eq("object") {
                let r = JsonValue::Obj(Vec::new());
                proof {
                    crate::json::lemma_members_view(r->Obj_0@);
                    assert(crate::json::members_view(r->Obj_0@) =~= Seq::<
                        (Seq<char>, JVal),
                    >::empty());
                }
                r
            } else {
                JsonValue::Str("value".to_owned())
            }
        },
        None => JsonValue::Str("value".to_owned()),
    }
}



/// Whether a property key is sampled: every key when nothing is
/// required, else the required keys only.
pub open spec fn spec_key_chosen(key: Seq<char>, required: Option<Seq<Seq<char>>>) -> bool {
    match required {
        Some(req) => if req.len() == 0 {
            true
        } else {
            req.contains(key)
        },
        None => true,
    }
}

/// The sampled members: each chosen property key, in schema order,
/// mapped to its sample value.
pub open spec fn spec_sample_members(
    props: Seq<(Seq<char>, JVal)>,
    required: Option<Seq<Seq<char>>>,
) -> Seq<(Seq<char>, JVal)>
    decreases props.len(),
{
    if props.len() == 0 {
        Seq::empty()
    } else {
        let rest = spec_sample_members(props.drop_first(), required);
        if spec_key_chosen(props[0].0, required) {
            seq![(props[0].0, spec_sample_value(props[0].1, 8))] + rest
        } else {
            rest
        }
    }
}

/// The sample arguments shown for a tool: its chosen properties mapped
/// to sample values, or a single placeholder member when nothing could
/// be sampled.
pub open spec fn spec_sample_arguments(t: Tool) -> JVal {
    let req: Option<Seq<Seq<char>>> = match t.input_schema.required {
        Some(r) => Some(r.deep_view()),
        None => None,
    };
    match t.input_schema.properties {
        Some(props) => {
            let m = spec_sample_members(crate::json::members_view(props@), req);
            if m.len() == 0 {
                JVal::Obj(seq![("example"@, JVal::Str("value"@))])
            } else {
                JVal::Obj(m)
            }
        },
        None => JVal::Obj(seq![("example"@, JVal::Str("value"@))]),
    }
}

fn required_contains(req: &Vec<String>, key: &str) -> (r: bool)
    ensures
        r == req.deep_view().contains(key@),
{
    let n = req.len();
    let mut i: usize = 0;
    while i < n
        invariant
            0 <= i <= n,
            n == req@.len(),
            forall|k: int| 0 <= k < i ==> req.deep_view()[k] != key@,
        decreases n - i,
    {
        if req[i].as_str().eq(key) {
            assert(req.deep_view()[i as int] == key@);
            return true;
        }
        i = i + 1;
    }
    proof {
        if req.deep_view().contains(key@) {
            let k = choose|k: int| 0 <= k < req.deep_view().len() && req.deep_view()[k] == key@;
            assert(false);
        }
    }
    false
}

/// The sample arguments for a tool: each chosen property key mapped to
/// a sample of its schema; a placeholder member when none is chosen.
#[verifier::loop_isolation(false)]
pub fn build_sample_arguments(tool: &Tool) -> (r: JsonValue)
    ensures
        jval_of(r) == spec_sample_arguments(*tool),
{
    proof {
        reveal_strlit("example");
        reveal_strlit("value");
    }
    let ghost req_view: Option<Seq<Seq<char>>> = match tool.input_schema.required {
        Some(ref rq) => Some(rq.deep_view()),
        None => None,
    };
    match &tool.input_schema.properties {
        Some(props) => {
            let n = props.len();
            let ghost pv = crate::json::members_view(props@);
            proof {
                crate::json::lemma_members_view(props@);
            }
            let mut out: Vec<(String, JsonValue)> = Vec::new();
            let mut i: usize = 0;
            proof {
                assert(pv.skip(0) =~= pv);
                assert(crate::json::members_view(out@) =~= Seq::<(Seq<char>, JVal)>::empty());
                crate::json::lemma_members_view(out@);
            }
            while i < n
                invariant
                    0 <= i <= n,
                    n == props@.len(),
                    pv == crate::json::members_view(props@),
                    pv.len() == n,
                    forall|k: int|
                        0 <= k < n ==> pv[k] == (props@[k].0@, jval_of(props@[k].1)),
                    spec_sample_members(pv, req_view) == crate::json::members_view(out@)
                        + spec_sample_members(pv.skip(i as int), req_view),
                decreases n - i,
            {
                proof {
                    assert(pv.skip(i as int)[0] == pv[i as int]);
                    assert(pv.skip(i as int).drop_first() =~= pv.skip(i as int + 1));
                }
                let chosen = match &tool.input_schema.required {
                    Some(rq) => {
                        if rq.len() == 0 {
                            true
                        } else {
                            required_contains(rq, props[i].0.as_str())
                        }
                    },
                    None => true,
                };
                if chosen {
                    let key = props[i].0.clone();
                    let sample = sample_value_for_schema(&props[i].1, 8);
                    let ghost pre = crate::json::members_view(out@);
                    proof {
                        crate::json::lemma_members_view(out@);
                    }
                    out.push((key, sample));
                    proof {
                        crate::json::lemma_members_view(out@);
                        assert(crate::json::members_view(out@) =~= pre.push(
                            (pv[i as int].0, spec_sample_value(pv[i as int].1, 8)),
                        ));
                        assert(pre + (seq![(pv[i as int].0, spec_sample_value(pv[i as int].1, 8))]
                            + spec_sample_members(pv.skip(i as int + 1), req_view))
                            =~= crate::json::members_view(out@) + spec_sample_members(
                            pv.skip(i as int + 1),
                            req_view,
                        ));
                    }
                }
                i = i + 1;
            }
            proof {
                assert(pv.skip(n as int) =~= Seq::<(Seq<char>, JVal)>::empty());
                assert(spec_sample_members(pv.skip(n as int), req_view) =~= Seq::<
                    (Seq<char>, JVal),
                >::empty());
                assert(crate::json::members_view(out@) + spec_sample_members(
                    pv.skip(n as int),
                    req_view,
                ) =~= crate::json::members_view(out@));
            }
            if out.len() == 0 {
                let mut members: Vec<(String, JsonValue)> = Vec::new();
                members.push(("example".to_owned(), JsonValue::Str("value".to_owned())));
                let r = JsonValue::Obj(members);
                proof {
                    crate::json::lemma_members_view(r->Obj_0@);
                    assert(crate::json::members_view(r->Obj_0@) =~= seq![
                        ("example"@, JVal::Str("value"@)),
                    ]);
                }
                r
            } else {
                let r = JsonValue::Obj(out);
                proof {
                    crate::json::lemma_members_view(r->Obj_0@);
                }
                r
            }
        },
        None => {
            let mut members: Vec<(String, JsonValue)> = Vec::new();
            members.push(("example".to_owned(), JsonValue::Str("value".to_owned())));
            let r = JsonValue::Obj(members);
            proof {
                crate::json::lemma_members_view(r->Obj_0@);
                assert(crate::json::members_view(r->Obj_0@) =~= seq![
                    ("example"@, JVal::Str("value"@)),
                ]);
            }
            r
        },
    }
}

/// The sample invocation block shown for one tool: the tag around the
/// pretty-printed sample arguments.
pub open spec fn spec_tool_sample_block(t: Tool) -> Seq<char> {
    "<tool_call name=\""@ + t.name@ + "\">\n"@ + json_text_pretty(
        spec_sample_arguments(t),
        Seq::empty(),
    ) + "\n</tool_call>\n"@
}

/// Render the sample invocation block for one tool.
pub fn build_tool_sample_block(tool: &Tool) -> (r: String)
    ensures
        r@ == spec_tool_sample_block(*tool),
{
    let sample = build_sample_arguments(tool);
    let body = json_write_pretty(&sample);
    let mut out = String::new();
    out.append("<tool_call name=\"");
    out.append(tool.name.as_str());
    out.append("\">\n");
    out.append(body.as_str());
    out.append("\n</tool_call>\n");
    proof {
        assert(out@ =~= spec_tool_sample_block(*tool));
    }
    out
}

/// One tool's entry in the tool listing shown to the model.
pub open spec fn spec_tool_info_entry(t: Tool) -> Seq<char> {
    "### "@ + t.name@ + "\n"@ + (match t.description {
        Some(d) => d@ + "\n"@,
        None => Seq::empty(),
    }) + "\nSample:\n"@ + spec_tool_sample_block(t)
}

/// The tool entries, in listing order.
pub open spec fn spec_tool_info_entries(tools: Seq<Tool>) -> Seq<char>
    decreases tools.len(),
{
    if tools.len() == 0 {
        Seq::empty()
    } else {
        spec_tool_info_entries(tools.drop_last()) + spec_tool_info_entry(tools.last())
    }
}

/// The whole tool listing shown to the model, or nothing when no tool
/// is advertised.
pub open spec fn spec_tool_info(tools: Seq<Tool>) -> Option<Seq<char>> {
    if tools.len() == 0 {
        None
    } else {
        Some(
            "\n## Available Tools\n\n"@ + "Available tools (short list):\n\n"@
                + spec_tool_info_entries(tools)
                + "\nTo use a tool, output (see per-tool samples above):\n\n"@
                + "<tool_call name=\"tool_name\">\n"@ + "{\n"@
                + "  \"argument_name\": \"value\"\n"@ + "}\n"@ + "</tool_call>\n"@,
        )
    }
}

/// Render the tool listing for the prompt: every advertised tool with
/// its description and a sample invocation, or nothing when no tool is
/// advertised.
#[verifier::loop_isolation(false)]
#[verifier::rlimit(100)]
#[verifier::spinoff_prover]
pub fn build_tool_info(tools: &Vec<(&str, &Tool)>) -> (r: Option<String>)
    ensures
        match r {
            Some(s) => spec_tool_info(spec_tools_of(tools@)) == Some(s@),
            None => spec_tool_info(spec_tools_of(tools@)) is None,
        },
{
    let ghost ts = spec_tools_of(tools@);
    proof {
        lemma_tools_of(tools@);
    }
    if tools.len() == 0 {
        return None;
    }
    let mut info = String::new();
    info.append("\n## Available Tools\n\n");
    info.append("Available tools (short list):\n\n");
    let ghost base = info@;
    let n = tools.len();
    let mut i: usize = 0;
    proof {
        assert(ts.take(0) =~= Seq::<Tool>::empty());
        assert(spec_tool_info_entries(ts.take(0)) =~= Seq::<char>::empty());
        assert(info@ =~= base + spec_tool_info_entries(ts.take(0)));
    }
    while i < n
        invariant
            0 <= i <= n,
            n == tools@.len(),
            ts == spec_tools_of(tools@),
            ts.len() == n,
            forall|k: int| 0 <= k < n ==> ts[k] == *(#[trigger] tools@[k]).1,
            info@ == base + spec_tool_info_entries(ts.take(i as int)),
        decreases n - i,
    {
        proof {
            assert(ts.take(i as int + 1).drop_last() =~= ts.take(i as int));
            assert(ts.take(i as int + 1).last() == ts[i as int]);
        }
        info.append("### ");
        info.append(tools[i].1.name.as_str());
        info.append("\n");
        match &tools[i].1.description {
            Some(desc) => {
                info.append(desc.as_str());
                info.append("\n");
            },
            None => {},
        }
        info.append("\nSample:\n");
        let block = build_tool_sample_block(tools[i].1);
        info.append(block.as_str());
        proof {
            assert(info@ =~= base + spec_tool_info_entries(ts.take(i as int + 1)));
        }
        i = i + 1;
    }
    proof {
        assert(ts.take(n as int) =~= ts);
    }
    info.append("\nTo use a tool, output (see per-tool samples above):\n\n");
    info.append("<tool_call name=\"tool_name\">\n");
    info.append("{\n");
    info.append("  \"argument_name\": \"value\"\n");
    info.append("}\n");
    info.append("</tool_call>\n");
    proof {
        assert(Some(info@) =~~= spec_tool_info(ts));
    }
    Some(info)
}



/// A generated sample tool-call block, fed back through the detector,
/// recovers the same tool name and exactly the sample arguments (so in
/// particular every required key that was sampled). Stated for a tool
/// whose name is non-empty and quote-free, whose sample text embeds
/// neither the closing tag nor the bracket marker, and whose sample
/// arguments round-trip through the JSON parser (`parse_json`'s
/// round-trip clause supplies that whenever the sample is well-formed
/// and nests within the parser's depth limit).
pub proof fn lemma_sample_block_round_trip(t: Tool)
    requires
        t.name@.len() >= 1,
        forall|i: int| 0 <= i < t.name@.len() ==> #[trigger] t.name@[i] != '"',
        forall|j: int|
            !occurs_at(
                json_text_pretty(spec_sample_arguments(t), Seq::empty()),
                xml_close_mark(),
                j,
            ),
        forall|j: int| !occurs_at(spec_tool_sample_block(t), start_mark(), j),
        json_parsed(
            seq!['\n'] + json_text_pretty(spec_sample_arguments(t), Seq::empty()) + seq!['\n'],
        ) == Some(spec_sample_arguments(t)),
    ensures
        spec_detect(spec_tool_sample_block(t)) =~= seq![
            (t.name@, spec_sample_arguments(t)),
        ],
{
    let nm = t.name@;
    let args = spec_sample_arguments(t);
    let jt = json_text_pretty(args, Seq::empty());
    let a = "<tool_call name=\""@;
    let b = "\">\n"@;
    let c_tail = "\n</tool_call>\n"@;
    let s = spec_tool_sample_block(t);
    reveal_strlit("<tool_call name=\"");
    reveal_strlit("\">\n");
    reveal_strlit("\n</tool_call>\n");
    reveal_strlit("<tool_call");
    reveal_strlit("name=\"");
    reveal_strlit("\"");
    reveal_strlit("</tool_call>");
    assert(a.len() == 17);
    assert(b.len() == 3);
    assert(c_tail.len() == 14);
    assert(s == a + nm + b + jt + c_tail);
    let n_len = nm.len() as int;
    let j_len = jt.len() as int;
    let total = 17 + n_len + 3 + j_len + 14;
    assert(s.len() == total);

    // The bracket scan finds nothing: the block never holds its marker.
    lemma_spec_find(s, start_mark(), 0);
    if spec_find(s, start_mark(), 0) >= 0 {
        assert(occurs_at(s, start_mark(), spec_find(s, start_mark(), 0)));
        assert(false);
    }
    assert(spec_json_calls(s, 0) =~= Seq::<(Seq<char>, crate::json::JVal)>::empty());

    // The XML scan opens at position 0.
    assert(s.subrange(0, 10) =~= xml_open_mark());
    assert(occurs_at(s, xml_open_mark(), 0));
    assert(spec_find(s, xml_open_mark(), 0) == 0);

    // One space, then `name="`.
    assert(s[10] == ' ');
    assert(s[11] == 'n');
    assert(ws_end(s, 11) == 11) by {
        assert(!crate::text::ws_char(s[11]));
    }
    assert(ws_end(s, 10) == ws_end(s, 11)) by {
        assert(crate::text::ws_char(s[10]));
    }
    assert(ws_end(s, 10) == 11);
    assert(s.subrange(11, 17) =~= name_eq_mark());
    assert(occurs_at(s, name_eq_mark(), 11));

    // The closing quote of the name is the first quote at or after 17.
    let nq = 17 + n_len;
    assert(s.subrange(nq, nq + 1) =~= quote_mark()) by {
        assert(s[nq] == b[0]);
    }
    assert(occurs_at(s, quote_mark(), nq));
    assert forall|j: int| 17 <= j < nq implies !occurs_at(s, quote_mark(), j) by {
        assert(s[j] == nm[j - 17]);
        if occurs_at(s, quote_mark(), j) {
            assert(s.subrange(j, j + 1)[0] == quote_mark()[0]);
            assert(s[j] == '"');
        }
    }
    lemma_spec_find(s, quote_mark(), 17);
    let found_q = spec_find(s, quote_mark(), 17);
    if found_q == -1 {
        assert(!occurs_at(s, quote_mark(), nq));
        assert(false);
    }
    if found_q < nq {
        assert(occurs_at(s, quote_mark(), found_q));
        assert(false);
    }
    if found_q > nq {
        assert(!occurs_at(s, quote_mark(), nq));
        assert(false);
    }
    assert(found_q == nq);
    assert(nq > 17);

    // Then `>` at once, with no whitespace between.
    assert(s[nq + 1] == '>') by {
        assert(s[nq + 1] == b[1]);
    }
    assert(ws_end(s, nq + 1) == nq + 1) by {
        assert(!crate::text::ws_char(s[nq + 1]));
    }
    let w2 = nq + 1;

    // The closing tag is the first at or after the body.
    let cstart = 17 + n_len + 3 + j_len;
    let close_pos = cstart + 1;
    assert(s.subrange(close_pos, close_pos + 12) =~= xml_close_mark()) by {
        assert(forall|k: int| 0 <= k < 12 ==> #[trigger] s[close_pos + k] == c_tail[1 + k]);
    }
    assert(occurs_at(s, xml_close_mark(), close_pos));
    assert forall|j: int| w2 + 1 <= j < close_pos implies !occurs_at(s, xml_close_mark(), j) by {
        if occurs_at(s, xml_close_mark(), j) {
            assert(forall|k: int|
                0 <= k < 12 ==> #[trigger] s.subrange(j, j + 12)[k] == xml_close_mark()[k]);
            assert(forall|k: int| 0 <= k < 12 ==> #[trigger] s[j + k] == xml_close_mark()[k]);
            if j == w2 + 1 {
                assert(s[j] == b[2]);
                assert(s[j] == '\n');
                assert(xml_close_mark()[0] == '<');
                assert(false);
            } else if j + 12 <= cstart {
                // Entirely inside the printed arguments.
                assert(occurs_at(jt, xml_close_mark(), j - (17 + n_len + 3))) by {
                    assert(forall|k: int|
                        0 <= k < 12 ==> #[trigger] jt[j - (17 + n_len + 3) + k] == s[j + k]);
                    assert(jt.subrange(j - (17 + n_len + 3), j - (17 + n_len + 3) + 12)
                        =~= xml_close_mark());
                }
                assert(false);
            } else {
                // The window covers the newline before the closing tag.
                let o = cstart - j;
                assert(0 <= o < 12);
                assert(s[cstart] == c_tail[0]);
                assert(s[cstart] == '\n');
                assert(s[j + o] == xml_close_mark()[o]);
                assert(forall|k: int| 0 <= k < 12 ==> xml_close_mark()[k] != '\n');
                assert(false);
            }
        }
    }
    lemma_spec_find(s, xml_close_mark(), w2 + 1);
    let found_c = spec_find(s, xml_close_mark(), w2 + 1);
    if found_c == -1 {
        assert(!occurs_at(s, xml_close_mark(), close_pos));
        assert(false);
    }
    if found_c < close_pos {
        assert(occurs_at(s, xml_close_mark(), found_c));
        assert(false);
    }
    if found_c > close_pos {
        assert(!occurs_at(s, xml_close_mark(), close_pos));
        assert(false);
    }
    assert(found_c == close_pos);

    // The captured name and body are exactly what was printed.
    assert(s.subrange(17, nq) =~= nm);
    let body = s.subrange(w2 + 1, close_pos);
    assert(body =~= seq!['\n'] + jt + seq!['\n']) by {
        assert(s[w2 + 1] == b[2]);
        assert(forall|k: int| 0 <= k < j_len ==> #[trigger] s[w2 + 2 + k] == jt[k]);
        assert(s[cstart] == c_tail[0]);
    }
    assert(spec_xml_args(body) == args);

    // Nothing follows the block: the scan past it is empty.
    assert(spec_xml_calls(s, close_pos + 12) =~= Seq::<(Seq<char>, crate::json::JVal)>::empty())
        by {
        assert(close_pos + 12 + xml_open_mark().len() > s.len());
        assert(spec_find(s, xml_open_mark(), close_pos + 12) == -1);
    }

    assert(spec_xml_calls(s, 0) =~= seq![(nm, args)]);
    assert(spec_detect(s) =~= seq![(nm, args)]);
}

} // verus!
