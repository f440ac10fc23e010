//! Tool-call detection in raw model output.
//!
//! Two syntaxes are recognized over the same text, and their findings
//! concatenated in discovery order:
//! bracketed JSON, `[TOOL_CALL] { ... } [END_TOOL_CALL]`, whose object
//! must carry `name` and `arguments` members; and tagged XML,
//! `<tool_call name="X"> body </tool_call>`, whose body is taken whole as
//! JSON when it parses, and otherwise as flat
//! `<argument name="k">v</argument>` pairs. A malformed occurrence is
//! skipped; it never stops the scan.

use vstd::prelude::*;
use crate::json::{
    json_parsed, jval_of, spec_obj_get, JVal, JsonValue,
};
use crate::text::{
    chars_to_string, find_at, lemma_spec_find, lemma_ws_end, matches_at, occurs_at, skip_ws,
    spec_find, str_to_chars, sub_chars, ws_end,
};

verus! {

/// A tool invocation the model asked for: a tool name and its arguments.
pub struct ToolCall {
    pub name: String,
    pub arguments: JsonValue,
}

impl DeepView for ToolCall {
    type V = (Seq<char>, JVal);

    open spec fn deep_view(&self) -> (Seq<char>, JVal) {
        (self.name@, jval_of(self.arguments))
    }
}

pub open spec fn start_mark() -> Seq<char> {
    "[TOOL_CALL]"@
}

pub open spec fn end_mark() -> Seq<char> {
    "[END_TOOL_CALL]"@
}

pub open spec fn xml_open_mark() -> Seq<char> {
    "<tool_call"@
}

pub open spec fn name_eq_mark() -> Seq<char> {
    "name=\""@
}

pub open spec fn quote_mark() -> Seq<char> {
    "\""@
}

pub open spec fn xml_close_mark() -> Seq<char> {
    "</tool_call>"@
}

pub open spec fn arg_open_mark() -> Seq<char> {
    "<argument"@
}

pub open spec fn arg_close_mark() -> Seq<char> {
    "</argument>"@
}

pub open spec fn lt_mark() -> Seq<char> {
    "<"@
}

/// The call a bracketed-JSON body yields: the body must be a JSON object
/// with a string `name` and any `arguments`.
pub open spec fn spec_extract_call(body: Seq<char>) -> Option<(Seq<char>, JVal)> {
    match json_parsed(body) {
        Some(v) => match v {
            JVal::Obj(m) => match (spec_obj_get(m, "name"@), spec_obj_get(m, "arguments"@)) {
                (Some(nv), Some(a)) => match nv {
                    JVal::Str(nm) => Some((nm, a)),
                    _ => None,
                },
                _ => None,
            },
            _ => None,
        },
        None => None,
    }
}

/// The first position at or after `e0` where a closing brace is followed
/// by optional whitespace and the end marker, or -1.
pub open spec fn spec_find_end(s: Seq<char>, e0: int) -> int
    decreases s.len() - e0,
{
    if e0 < 0 || e0 >= s.len() {
        -1
    } else if s[e0] == '}' && occurs_at(s, end_mark(), ws_end(s, e0 + 1)) {
        e0
    } else {
        spec_find_end(s, e0 + 1)
    }
}

pub proof fn lemma_spec_find_end(s: Seq<char>, e0: int)
    requires
        e0 >= 0,
    ensures
        spec_find_end(s, e0) == -1 || e0 <= spec_find_end(s, e0) < s.len(),
        spec_find_end(s, e0) >= 0 ==> {
            let e = spec_find_end(s, e0);
            s[e] == '}' && occurs_at(s, end_mark(), ws_end(s, e + 1))
        },
    decreases s.len() - e0,
{
    if e0 < s.len() && !(s[e0] == '}' && occurs_at(s, end_mark(), ws_end(s, e0 + 1))) {
        lemma_spec_find_end(s, e0 + 1);
    }
}

/// The calls found by the bracketed-JSON scan from `from` on.
pub open spec fn spec_json_calls(s: Seq<char>, from: int) -> Seq<(Seq<char>, JVal)>
    decreases s.len() - from, 0int,
{
    let p = spec_find(s, start_mark(), from);
    if from < 0 || p < from {
        Seq::empty()
    } else {
        proof {
            lemma_spec_find(s, start_mark(), from);
            reveal_strlit("[TOOL_CALL]");
            reveal_strlit("[END_TOOL_CALL]");
        }
        let w = ws_end(s, p + start_mark().len());
        proof {
            lemma_ws_end(s, p + start_mark().len());
        }
        if w >= s.len() || s[w] != '{' {
            spec_json_calls(s, p + 1)
        } else {
            let e = spec_find_end(s, w);
            proof {
                lemma_spec_find_end(s, w);
            }
            if e < w {
                spec_json_calls(s, p + 1)
            } else {
                let next = ws_end(s, e + 1) + end_mark().len();
                proof {
                    lemma_ws_end(s, e + 1);
                }
                let rest = spec_json_calls(s, next);
                match spec_extract_call(s.subrange(w, e + 1)) {
                    Some(c) => seq![c] + rest,
                    None => rest,
                }
            }
        }
    }
}

/// The argument pairs found in an XML body from `from` on.
pub open spec fn spec_arg_pairs(b: Seq<char>, from: int) -> Seq<(Seq<char>, JVal)>
    decreases b.len() - from, 0int,
{
    let p = spec_find(b, arg_open_mark(), from);
    if from < 0 || p < from {
        Seq::empty()
    } else {
        proof {
            lemma_spec_find(b, arg_open_mark(), from);
            reveal_strlit("<argument");
            reveal_strlit("name=\"");
            reveal_strlit("\"");
            reveal_strlit("<");
            reveal_strlit("</argument>");
        }
        let q = ws_end(b, p + arg_open_mark().len());
        proof {
            lemma_ws_end(b, p + arg_open_mark().len());
        }
        if q == p + arg_open_mark().len() || !occurs_at(b, name_eq_mark(), q) {
            spec_arg_pairs(b, p + 1)
        } else {
            let nq = spec_find(b, quote_mark(), q + name_eq_mark().len());
            proof {
                lemma_spec_find(b, quote_mark(), q + name_eq_mark().len());
            }
            if nq <= q + name_eq_mark().len() {
                spec_arg_pairs(b, p + 1)
            } else {
                let w2 = ws_end(b, nq + 1);
                proof {
                    lemma_ws_end(b, nq + 1);
                }
                if w2 >= b.len() || b[w2] != '>' {
                    spec_arg_pairs(b, p + 1)
                } else {
                    let lt = spec_find(b, lt_mark(), w2 + 1);
                    proof {
                        lemma_spec_find(b, lt_mark(), w2 + 1);
                    }
                    if lt < w2 + 1 || !occurs_at(b, arg_close_mark(), lt) {
                        spec_arg_pairs(b, p + 1)
                    } else {
                        let nm = b.subrange(q + name_eq_mark().len(), nq);
                        let vtext = b.subrange(w2 + 1, lt);
                        let v = match json_parsed(vtext) {
                            Some(x) => x,
                            None => JVal::Str(vtext),
                        };
                        seq![(nm, v)] + spec_arg_pairs(b, lt + arg_close_mark().len())
                    }
                }
            }
        }
    }
}

/// The arguments an XML body yields: the whole body as JSON when it
/// parses, else its flat argument pairs as an object.
pub open spec fn spec_xml_args(body: Seq<char>) -> JVal {
    match json_parsed(body) {
        Some(v) => v,
        None => JVal::Obj(spec_arg_pairs(body, 0)),
    }
}

/// The calls found by the tagged-XML scan from `from` on.
pub open spec fn spec_xml_calls(s: Seq<char>, from: int) -> Seq<(Seq<char>, JVal)>
    decreases s.len() - from, 0int,
{
    let p = spec_find(s, xml_open_mark(), from);
    if from < 0 || p < from {
        Seq::empty()
    } else {
        proof {
            lemma_spec_find(s, xml_open_mark(), from);
            reveal_strlit("<tool_call");
            reveal_strlit("name=\"");
            reveal_strlit("\"");
            reveal_strlit("</tool_call>");
        }
        let q = ws_end(s, p + xml_open_mark().len());
        proof {
            lemma_ws_end(s, p + xml_open_mark().len());
        }
        if q == p + xml_open_mark().len() || !occurs_at(s, name_eq_mark(), q) {
            spec_xml_calls(s, p + 1)
        } else {
            let nq = spec_find(s, quote_mark(), q + name_eq_mark().len());
            proof {
                lemma_spec_find(s, quote_mark(), q + name_eq_mark().len());
            }
            if nq <= q + name_eq_mark().len() {
                spec_xml_calls(s, p + 1)
            } else {
                let w2 = ws_end(s, nq + 1);
                proof {
                    lemma_ws_end(s, nq + 1);
                }
                if w2 >= s.len() || s[w2] != '>' {
                    spec_xml_calls(s, p + 1)
                } else {
                    let c = spec_find(s, xml_close_mark(), w2 + 1);
                    proof {
                        lemma_spec_find(s, xml_close_mark(), w2 + 1);
                    }
                    if c < w2 + 1 {
                        spec_xml_calls(s, p + 1)
                    } else {
                        let nm = s.subrange(q + name_eq_mark().len(), nq);
                        let body = s.subrange(w2 + 1, c);
                        seq![(nm, spec_xml_args(body))] + spec_xml_calls(
                            s,
                            c + xml_close_mark().len(),
                        )
                    }
                }
            }
        }
    }
}

/// Every tool call in `s`: the bracketed-JSON findings, then the
/// tagged-XML findings, each in text order.
pub open spec fn spec_detect(s: Seq<char>) -> Seq<(Seq<char>, JVal)> {
    spec_json_calls(s, 0) + spec_xml_calls(s, 0)
}

/// A copy of a JSON value, with the same model.
pub fn clone_json(v: &JsonValue) -> (r: JsonValue)
    ensures
        r.deep_view() == v.deep_view(),
    decreases v,
{
    match *v {
        JsonValue::Null => JsonValue::Null,
        JsonValue::Bool(ref b) => JsonValue::Bool(*b),
        JsonValue::Int(ref i) => JsonValue::Int(*i),
        JsonValue::Num(ref s) => JsonValue::Num(s.clone()),
        JsonValue::Str(ref s) => JsonValue::Str(s.clone()),
        JsonValue::Arr(ref a) => {
            let n = a.len();
            let mut out: Vec<JsonValue> = Vec::new();
            let mut i: usize = 0;
            proof {
                crate::json::lemma_elems_view(a@);
            }
            while i < n
                invariant
                    0 <= i <= n,
                    n == a@.len(),
                    v is Arr,
                    *a == v->Arr_0,
                    out@.len() == i,
                    forall|k: int| 0 <= k < i ==> (#[trigger] out@[k]).deep_view() == a@[k].deep_view(),
                decreases n - i,
            {
                proof {
                    lemma_decreases_arr2(*v);
                    assert(decreases_to!(*a => a@));
                    assert(decreases_to!(a@ => a@[i as int]));
                }
                let c = clone_json(&a[i]);
                out.push(c);
                i = i + 1;
            }
            let r = JsonValue::Arr(out);
            proof {
                crate::json::lemma_elems_view(out@);
                assert(crate::json::elems_view(out@) =~= crate::json::elems_view(a@));
            }
            r
        },
        JsonValue::Obj(ref o) => {
            let n = o.len();
            let mut out: Vec<(String, JsonValue)> = Vec::new();
            let mut i: usize = 0;
            proof {
                crate::json::lemma_members_view(o@);
            }
            while i < n
                invariant
                    0 <= i <= n,
                    n == o@.len(),
                    v is Obj,
                    *o == v->Obj_0,
                    out@.len() == i,
                    forall|k: int|
                        0 <= k < i ==> (#[trigger] out@[k]).0@ == o@[k].0@ && out@[k].1.deep_view()
                            == o@[k].1.deep_view(),
                decreases n - i,
            {
                proof {
                    lemma_decreases_obj2(*v);
                    assert(decreases_to!(*o => o@));
                    assert(decreases_to!(o@ => o@[i as int]));
                    assert(decreases_to!(o@[i as int] => o@[i as int].1));
                }
                let key = o[i].0.clone();
                let c = clone_json(&o[i].1);
                out.push((key, c));
                i = i + 1;
            }
            let r = JsonValue::Obj(out);
            proof {
                crate::json::lemma_members_view(out@);
                assert(crate::json::members_view(out@) =~= crate::json::members_view(o@));
            }
            r
        },
    }
}

proof fn lemma_decreases_arr2(v: JsonValue)
    requires
        v is Arr,
    ensures
        decreases_to!(v => v->Arr_0),
{
    match v {
        JsonValue::Arr(a) => {
            assert(decreases_to!(v => a));
        },
        _ => {},
    }
}

proof fn lemma_decreases_obj2(v: JsonValue)
    requires
        v is Obj,
    ensures
        decreases_to!(v => v->Obj_0),
{
    match v {
        JsonValue::Obj(o) => {
            assert(decreases_to!(v => o));
        },
        _ => {},
    }
}

/// Read a bracketed-JSON body: a JSON object carrying a string `name`
/// and any `arguments`.
fn extract_call(body: &Vec<char>) -> (r: Option<ToolCall>)
    ensures
        match r {
            Some(c) => spec_extract_call(body@) == Some(c.deep_view()),
            None => spec_extract_call(body@) is None,
        },
{
    let text = chars_to_string(body);
    match crate::json::parse_json(text.as_str()) {
        Some(v) => {
            let name = match v.get("name") {
                Some(nv) => match nv.as_str() {
                    Some(s) => s.clone(),
                    None => {
                        return None;
                    },
                },
                None => {
                    return None;
                },
            };
            match v.get("arguments") {
                Some(a) => {
                    let args = clone_json(a);
                    Some(ToolCall { name, arguments: args })
                },
                None => None,
            }
        },
        None => None,
    }
}

/// Find the end of a bracketed-JSON body from `e0` on: a closing brace
/// followed by optional whitespace and the end marker.
fn find_end_at(text: &Vec<char>, e0: usize) -> (r: Option<usize>)
    requires
        e0 <= text@.len(),
    ensures
        match r {
            Some(e) => spec_find_end(text@, e0 as int) == e && e0 <= e < text@.len(),
            None => spec_find_end(text@, e0 as int) == -1,
        },
{
    let n = text.len();
    let end_pat = str_to_chars("[END_TOOL_CALL]");
    let mut e = e0;
    while e < n
        invariant
            e0 <= e <= n,
            n == text@.len(),
            end_pat@ == end_mark(),
            spec_find_end(text@, e0 as int) == spec_find_end(text@, e as int),
        decreases n - e,
    {
        if text[e] == '}' {
            let f = skip_ws(text, e + 1);
            if end_pat.len() <= n - f && matches_at(text, &end_pat, f) {
                return Some(e);
            }
            proof {
                if occurs_at(text@, end_mark(), ws_end(text@, e as int + 1)) {
                    assert(false);
                }
            }
        }
        e = e + 1;
    }
    None
}

/// Scan for bracketed-JSON tool calls.
fn scan_json_calls(text: &Vec<char>) -> (r: Vec<ToolCall>)
    ensures
        r.deep_view() == spec_json_calls(text@, 0),
{
    let n = text.len();
    let start_pat = str_to_chars("[TOOL_CALL]");
    let end_pat = str_to_chars("[END_TOOL_CALL]");
    proof {
        reveal_strlit("[TOOL_CALL]");
        reveal_strlit("[END_TOOL_CALL]");
    }
    let mut out: Vec<ToolCall> = Vec::new();
    let mut cur: usize = 0;
    loop
        invariant
            cur <= n,
            n == text@.len(),
            start_pat@ == start_mark(),
            end_pat@ == end_mark(),
            start_pat@.len() == 11,
            end_pat@.len() == 15,
            spec_json_calls(text@, 0) == out.deep_view() + spec_json_calls(text@, cur as int),
        decreases n - cur,
    {
        let ghost prefix = out.deep_view();
        match find_at(text, &start_pat, cur) {
            None => {
                proof {
                    assert(spec_json_calls(text@, cur as int) =~= Seq::<
                        (Seq<char>, JVal),
                    >::empty());
                    assert(out.deep_view() =~= spec_json_calls(text@, 0));
                }
                return out;
            },
            Some(p) => {
                let w = skip_ws(text, p + 11);
                proof {
                    lemma_ws_end(text@, p as int + 11);
                }
                if w >= n || text[w] != '{' {
                    proof {
                        assert(spec_json_calls(text@, cur as int) == spec_json_calls(
                            text@,
                            p as int + 1,
                        ));
                    }
                    cur = p + 1;
                } else {
                    match find_end_at(text, w) {
                        None => {
                            proof {
                                assert(spec_json_calls(text@, cur as int) == spec_json_calls(
                                    text@,
                                    p as int + 1,
                                ));
                            }
                            cur = p + 1;
                        },
                        Some(e) => {
                            let f = skip_ws(text, e + 1);
                            proof {
                                lemma_ws_end(text@, e as int + 1);
                                lemma_spec_find_end(text@, w as int);
                                assert(occurs_at(text@, end_mark(), f as int));
                            }
                            let next = f + 15;
                            let body = sub_chars(text, w, e + 1);
                            match extract_call(&body) {
                                Some(c) => {
                                    proof {
                                        assert(spec_json_calls(text@, cur as int) == seq![
                                            c.deep_view(),
                                        ] + spec_json_calls(text@, next as int));
                                    }
                                    out.push(c);
                                    proof {
                                        assert(out.deep_view() =~= prefix.push(
                                            out@[out@.len() - 1].deep_view(),
                                        ));
                                        assert(prefix + (seq![out@[out@.len() - 1].deep_view()]
                                            + spec_json_calls(text@, next as int)) =~= out.deep_view()
                                            + spec_json_calls(text@, next as int));
                                    }
                                    cur = next;
                                },
                                None => {
                                    proof {
                                        assert(spec_json_calls(text@, cur as int)
                                            == spec_json_calls(text@, next as int));
                                    }
                                    cur = next;
                                },
                            }
                        },
                    }
                }
            },
        }
    }
}



/// Scan an XML body for flat argument pairs.
fn scan_arg_pairs(b: &Vec<char>) -> (r: Vec<(String, JsonValue)>)
    ensures
        crate::json::members_view(r@) == spec_arg_pairs(b@, 0),
{
    let n = b.len();
    let open_pat = str_to_chars("<argument");
    let name_pat = str_to_chars("name=\"");
    let quote_pat = str_to_chars("\"");
    let lt_pat = str_to_chars("<");
    let close_pat = str_to_chars("</argument>");
    proof {
        reveal_strlit("<argument");
        reveal_strlit("name=\"");
        reveal_strlit("\"");
        reveal_strlit("<");
        reveal_strlit("</argument>");
    }
    let mut out: Vec<(String, JsonValue)> = Vec::new();
    let mut cur: usize = 0;
    proof {
        crate::json::lemma_members_view(out@);
        assert(crate::json::members_view(out@) =~= Seq::<(Seq<char>, JVal)>::empty());
    }
    loop
        invariant
            cur <= n,
            n == b@.len(),
            open_pat@ == arg_open_mark(),
            name_pat@ == name_eq_mark(),
            quote_pat@ == quote_mark(),
            lt_pat@ == lt_mark(),
            close_pat@ == arg_close_mark(),
            open_pat@.len() == 9,
            name_pat@.len() == 6,
            quote_pat@.len() == 1,
            lt_pat@.len() == 1,
            close_pat@.len() == 11,
            spec_arg_pairs(b@, 0) == crate::json::members_view(out@) + spec_arg_pairs(
                b@,
                cur as int,
            ),
        decreases n - cur,
    {
        let ghost prefix = crate::json::members_view(out@);
        match find_at(b, &open_pat, cur) {
            None => {
                proof {
                    assert(spec_arg_pairs(b@, cur as int) =~= Seq::<(Seq<char>, JVal)>::empty());
                    assert(crate::json::members_view(out@) =~= spec_arg_pairs(b@, 0));
                }
                return out;
            },
            Some(p) => {
                let q = skip_ws(b, p + 9);
                proof {
                    lemma_ws_end(b@, p as int + 9);
                }
                let header_ok = q > p + 9 && 6 <= n - q && matches_at(b, &name_pat, q);
                if !header_ok {
                    proof {
                        if occurs_at(b@, name_eq_mark(), q as int) {
                            assert(q as int + 6 <= n);
                        }
                        assert(spec_arg_pairs(b@, cur as int) == spec_arg_pairs(b@, p as int + 1));
                    }
                    cur = p + 1;
                    continue;
                }
                match find_at(b, &quote_pat, q + 6) {
                    None => {
                        proof {
                            assert(spec_arg_pairs(b@, cur as int) == spec_arg_pairs(
                                b@,
                                p as int + 1,
                            ));
                        }
                        cur = p + 1;
                    },
                    Some(nq) => {
                        if nq <= q + 6 {
                            proof {
                                assert(spec_arg_pairs(b@, cur as int) == spec_arg_pairs(
                                    b@,
                                    p as int + 1,
                                ));
                            }
                            cur = p + 1;
                            continue;
                        }
                        let w2 = skip_ws(b, nq + 1);
                        proof {
                            lemma_ws_end(b@, nq as int + 1);
                        }
                        if w2 >= n || b[w2] != '>' {
                            proof {
                                assert(spec_arg_pairs(b@, cur as int) == spec_arg_pairs(
                                    b@,
                                    p as int + 1,
                                ));
                            }
                            cur = p + 1;
                            continue;
                        }
                        match find_at(b, &lt_pat, w2 + 1) {
                            None => {
                                proof {
                                    assert(spec_arg_pairs(b@, cur as int) == spec_arg_pairs(
                                        b@,
                                        p as int + 1,
                                    ));
                                }
                                cur = p + 1;
                            },
                            Some(lt) => {
                                let close_ok = close_pat.len() <= n - lt && matches_at(
                                    b,
                                    &close_pat,
                                    lt,
                                );
                                if !close_ok {
                                    proof {
                                        if occurs_at(b@, arg_close_mark(), lt as int) {
                                            assert(false);
                                        }
                                        assert(spec_arg_pairs(b@, cur as int) == spec_arg_pairs(
                                            b@,
                                            p as int + 1,
                                        ));
                                    }
                                    cur = p + 1;
                                    continue;
                                }
                                let nm_chars = sub_chars(b, q + 6, nq);
                                let nm = chars_to_string(&nm_chars);
                                let vchars = sub_chars(b, w2 + 1, lt);
                                let vtext = chars_to_string(&vchars);
                                let value = match crate::json::parse_json(vtext.as_str()) {
                                    Some(x) => x,
                                    None => JsonValue::Str(vtext),
                                };
                                let next = lt + 11;
                                proof {
                                    assert(spec_arg_pairs(b@, cur as int) == seq![
                                        (nm@, jval_of(value)),
                                    ] + spec_arg_pairs(b@, next as int));
                                    crate::json::lemma_members_view(out@);
                                }
                                out.push((nm, value));
                                proof {
                                    crate::json::lemma_members_view(out@);
                                    assert(crate::json::members_view(out@) =~= prefix.push(
                                        (out@[out@.len() - 1].0@, jval_of(out@[out@.len() - 1].1)),
                                    ));
                                    assert(prefix + (seq![
                                        (out@[out@.len() - 1].0@, jval_of(out@[out@.len() - 1].1)),
                                    ] + spec_arg_pairs(b@, next as int)) =~= crate::json::members_view(
                                        out@,
                                    ) + spec_arg_pairs(b@, next as int));
                                }
                                cur = next;
                            },
                        }
                    },
                }
            },
        }
    }
}

/// Read an XML body: the whole body as JSON when it parses, else its
/// flat argument pairs.
fn xml_args(body: &Vec<char>) -> (r: JsonValue)
    ensures
        jval_of(r) == spec_xml_args(body@),
{
    let text = chars_to_string(body);
    match crate::json::parse_json(text.as_str()) {
        Some(v) => v,
        None => {
            let pairs = scan_arg_pairs(body);
            JsonValue::Obj(pairs)
        },
    }
}

/// Scan for tagged-XML tool calls.
fn scan_xml_calls(text: &Vec<char>) -> (r: Vec<ToolCall>)
    ensures
        r.deep_view() == spec_xml_calls(text@, 0),
{
    let n = text.len();
    let open_pat = str_to_chars("<tool_call");
    let name_pat = str_to_chars("name=\"");
    let quote_pat = str_to_chars("\"");
    let close_pat = str_to_chars("</tool_call>");
    proof {
        reveal_strlit("<tool_call");
        reveal_strlit("name=\"");
        reveal_strlit("\"");
        reveal_strlit("</tool_call>");
    }
    let mut out: Vec<ToolCall> = Vec::new();
    let mut cur: usize = 0;
    loop
        invariant
            cur <= n,
            n == text@.len(),
            open_pat@ == xml_open_mark(),
            name_pat@ == name_eq_mark(),
            quote_pat@ == quote_mark(),
            close_pat@ == xml_close_mark(),
            open_pat@.len() == 10,
            name_pat@.len() == 6,
            quote_pat@.len() == 1,
            close_pat@.len() == 12,
            spec_xml_calls(text@, 0) == out.deep_view() + spec_xml_calls(text@, cur as int),
        decreases n - cur,
    {
        let ghost prefix = out.deep_view();
        match find_at(text, &open_pat, cur) {
            None => {
                proof {
                    assert(spec_xml_calls(text@, cur as int) =~= Seq::<(Seq<char>, JVal)>::empty());
                    assert(out.deep_view() =~= spec_xml_calls(text@, 0));
                }
                return out;
            },
            Some(p) => {
                let q = skip_ws(text, p + 10);
                proof {
                    lemma_ws_end(text@, p as int + 10);
                }
                let header_ok = q > p + 10 && 6 <= n - q && matches_at(text, &name_pat, q);
                if !header_ok {
                    proof {
                        if occurs_at(text@, name_eq_mark(), q as int) {
                            assert(q as int + 6 <= n);
                        }
                        assert(spec_xml_calls(text@, cur as int) == spec_xml_calls(
                            text@,
                            p as int + 1,
                        ));
                    }
                    cur = p + 1;
                    continue;
                }
                match find_at(text, &quote_pat, q + 6) {
                    None => {
                        proof {
                            assert(spec_xml_calls(text@, cur as int) == spec_xml_calls(
                                text@,
                                p as int + 1,
                            ));
                        }
                        cur = p + 1;
                    },
                    Some(nq) => {
                        if nq <= q + 6 {
                            proof {
                                assert(spec_xml_calls(text@, cur as int) == spec_xml_calls(
                                    text@,
                                    p as int + 1,
                                ));
                            }
                            cur = p + 1;
                            continue;
                        }
                        let w2 = skip_ws(text, nq + 1);
                        proof {
                            lemma_ws_end(text@, nq as int + 1);
                        }
                        if w2 >= n || text[w2] != '>' {
                            proof {
                                assert(spec_xml_calls(text@, cur as int) == spec_xml_calls(
                                    text@,
                                    p as int + 1,
                                ));
                            }
                            cur = p + 1;
                            continue;
                        }
                        match find_at(text, &close_pat, w2 + 1) {
                            None => {
                                proof {
                                    assert(spec_xml_calls(text@, cur as int) == spec_xml_calls(
                                        text@,
                                        p as int + 1,
                                    ));
                                }
                                cur = p + 1;
                            },
                            Some(c) => {
                                let nm_chars = sub_chars(text, q + 6, nq);
                                let nm = chars_to_string(&nm_chars);
                                let body = sub_chars(text, w2 + 1, c);
                                let args = xml_args(&body);
                                let next = c + 12;
                                let call = ToolCall { name: nm, arguments: args };
                                proof {
                                    assert(spec_xml_calls(text@, cur as int) == seq![
                                        call.deep_view(),
                                    ] + spec_xml_calls(text@, next as int));
                                }
                                out.push(call);
                                proof {
                                    assert(out.deep_view() =~= prefix.push(
                                        out@[out@.len() - 1].deep_view(),
                                    ));
                                    assert(prefix + (seq![out@[out@.len() - 1].deep_view()]
                                        + spec_xml_calls(text@, next as int)) =~= out.deep_view()
                                        + spec_xml_calls(text@, next as int));
                                }
                                cur = next;
                            },
                        }
                    },
                }
            },
        }
    }
}

/// The stateless detector for tool calls in model output.
pub struct ToolCallDetector {}

impl ToolCallDetector {
    /// A new detector.
    pub fn new() -> (r: ToolCallDetector) {
        ToolCallDetector {  }
    }

    /// Every tool call in `text`: one per well-formed occurrence of
    /// either syntax, in text order, bracketed-JSON findings first; a
    /// malformed occurrence yields nothing and the scan goes on.
    pub fn detect(&self, text: &str) -> (r: Vec<ToolCall>)
        ensures
            r.deep_view() == spec_detect(text@),
    {
        let chars = str_to_chars(text);
        let mut calls = scan_json_calls(&chars);
        let ghost jpart = calls.deep_view();
        let mut xml = scan_xml_calls(&chars);
        let ghost xpart = xml.deep_view();
        calls.append(&mut xml);
        proof {
            assert(calls.deep_view() =~= jpart + xpart);
        }
        calls
    }
}

impl Default for ToolCallDetector {
    fn default() -> (r: ToolCallDetector)
        ensures
            r == (ToolCallDetector {  }),
    {
        ToolCallDetector::new()
    }
}

/// A text with neither syntax's opening marker yields no calls.
pub proof fn lemma_detect_none(s: Seq<char>)
    requires
        forall|j: int| !occurs_at(s, start_mark(), j),
        forall|j: int| !occurs_at(s, xml_open_mark(), j),
    ensures
        spec_detect(s) == Seq::<(Seq<char>, JVal)>::empty(),
{
    lemma_spec_find(s, start_mark(), 0);
    if spec_find(s, start_mark(), 0) >= 0 {
        assert(occurs_at(s, start_mark(), spec_find(s, start_mark(), 0)));
    }
    lemma_spec_find(s, xml_open_mark(), 0);
    if spec_find(s, xml_open_mark(), 0) >= 0 {
        assert(occurs_at(s, xml_open_mark(), spec_find(s, xml_open_mark(), 0)));
    }
    assert(spec_json_calls(s, 0) =~= Seq::<(Seq<char>, JVal)>::empty());
    assert(spec_xml_calls(s, 0) =~= Seq::<(Seq<char>, JVal)>::empty());
    assert(spec_detect(s) =~= Seq::<(Seq<char>, JVal)>::empty());
}



/// The text with every well-formed `<tool_call ...>...</tool_call>`
/// block removed, scanning from `from` on.
pub open spec fn spec_strip_calls(s: Seq<char>, from: int) -> Seq<char>
    decreases s.len() - from, 0int,
{
    let p = spec_find(s, xml_open_mark(), from);
    if from < 0 {
        Seq::empty()
    } else if p < from {
        s.skip(from)
    } else {
        proof {
            lemma_spec_find(s, xml_open_mark(), from);
            reveal_strlit("<tool_call");
            reveal_strlit("name=\"");
            reveal_strlit("\"");
            reveal_strlit("</tool_call>");
        }
        let q = ws_end(s, p + xml_open_mark().len());
        proof {
            lemma_ws_end(s, p + xml_open_mark().len());
        }
        if q == p + xml_open_mark().len() || !occurs_at(s, name_eq_mark(), q) {
            s.subrange(from, p + 1) + spec_strip_calls(s, p + 1)
        } else {
            let nq = spec_find(s, quote_mark(), q + name_eq_mark().len());
            proof {
                lemma_spec_find(s, quote_mark(), q + name_eq_mark().len());
            }
            if nq <= q + name_eq_mark().len() {
                s.subrange(from, p + 1) + spec_strip_calls(s, p + 1)
            } else {
                let w2 = ws_end(s, nq + 1);
                proof {
                    lemma_ws_end(s, nq + 1);
                }
                if w2 >= s.len() || s[w2] != '>' {
                    s.subrange(from, p + 1) + spec_strip_calls(s, p + 1)
                } else {
                    let c = spec_find(s, xml_close_mark(), w2 + 1);
                    proof {
                        lemma_spec_find(s, xml_close_mark(), w2 + 1);
                    }
                    if c < w2 + 1 {
                        s.subrange(from, p + 1) + spec_strip_calls(s, p + 1)
                    } else {
                        s.subrange(from, p) + spec_strip_calls(s, c + xml_close_mark().len())
                    }
                }
            }
        }
    }
}

/// The display text of a model response: every `<tool_call>` block
/// removed, everything else kept as written.
#[verifier::loop_isolation(false)]
pub fn strip_tool_calls(text: &str) -> (r: String)
    ensures
        r@ == spec_strip_calls(text@, 0),
{
    let chars = str_to_chars(text);
    let n = chars.len();
    let open_pat = str_to_chars("<tool_call");
    let name_pat = str_to_chars("name=\"");
    let quote_pat = str_to_chars("\"");
    let close_pat = str_to_chars("</tool_call>");
    proof {
        reveal_strlit("<tool_call");
        reveal_strlit("name=\"");
        reveal_strlit("\"");
        reveal_strlit("</tool_call>");
    }
    let mut out = String::new();
    let mut cur: usize = 0;
    loop
        invariant
            cur <= n,
            n == text@.len(),
            chars@ == text@,
            open_pat@ == xml_open_mark(),
            name_pat@ == name_eq_mark(),
            quote_pat@ == quote_mark(),
            close_pat@ == xml_close_mark(),
            spec_strip_calls(text@, 0) == out@ + spec_strip_calls(text@, cur as int),
        decreases n - cur,
    {
        let ghost pre = out@;
        match find_at(&chars, &open_pat, cur) {
            None => {
                let rest = sub_chars(&chars, cur, n);
                let rest_str = chars_to_string(&rest);
                out.append(rest_str.as_str());
                proof {
                    assert(spec_strip_calls(text@, cur as int) =~= text@.skip(cur as int));
                    assert(rest@ =~= text@.skip(cur as int));
                    assert(out@ =~= pre + spec_strip_calls(text@, cur as int));
                }
                return out;
            },
            Some(p) => {
                let q = skip_ws(&chars, p + 10);
                let header_ok = q > p + 10 && 6 <= n - q && matches_at(&chars, &name_pat, q);
                let mut matched: Option<usize> = None;
                if header_ok {
                    match find_at(&chars, &quote_pat, q + 6) {
                        Some(nq) if nq > q + 6 => {
                            let w2 = skip_ws(&chars, nq + 1);
                            if w2 < n && chars[w2] == '>' {
                                match find_at(&chars, &close_pat, w2 + 1) {
                                    Some(c) => {
                                        matched = Some(c);
                                    },
                                    None => {},
                                }
                            }
                        },
                        _ => {},
                    }
                }
                proof {
                    if !occurs_at(text@, name_eq_mark(), q as int) || q as int == p + 10 {
                    } else {
                        assert(q as int + 6 <= n);
                    }
                }
                match matched {
                    Some(c) => {
                        let piece = sub_chars(&chars, cur, p);
                        let piece_str = chars_to_string(&piece);
                        out.append(piece_str.as_str());
                        proof {
                            assert(piece@ =~= text@.subrange(cur as int, p as int));
                            assert(out@ =~= pre + text@.subrange(cur as int, p as int));
                        }
                        cur = c + 12;
                    },
                    None => {
                        let piece = sub_chars(&chars, cur, p + 1);
                        let piece_str = chars_to_string(&piece);
                        out.append(piece_str.as_str());
                        proof {
                            assert(piece@ =~= text@.subrange(cur as int, p as int + 1));
                            assert(out@ =~= pre + text@.subrange(cur as int, p as int + 1));
                        }
                        cur = p + 1;
                    },
                }
            },
        }
    }
}



/// No start marker begins in or straddles out of a marker-free prefix:
/// a straddling occurrence would need `[` past the marker's first
/// character.
proof fn lemma_no_start_before(s: Seq<char>, pre: Seq<char>)
    requires
        pre.len() + start_mark().len() <= s.len(),
        forall|k: int| 0 <= k < pre.len() ==> #[trigger] s[k] == pre[k],
        s[pre.len() as int] == '[',
        forall|j: int| !occurs_at(pre, start_mark(), j),
    ensures
        forall|j: int| 0 <= j < pre.len() ==> !occurs_at(s, start_mark(), j),
{
    reveal_strlit("[TOOL_CALL]");
    let p = pre.len() as int;
    assert forall|j: int| 0 <= j < p implies !occurs_at(s, start_mark(), j) by {
        if occurs_at(s, start_mark(), j) {
            assert(forall|k: int|
                0 <= k < 11 ==> #[trigger] s.subrange(j, j + 11)[k] == start_mark()[k]);
            assert(forall|k: int| 0 <= k < 11 ==> #[trigger] s[j + k] == start_mark()[k]);
            if j + 11 <= p {
                assert(occurs_at(pre, start_mark(), j)) by {
                    assert(forall|k: int| 0 <= k < 11 ==> #[trigger] pre[j + k] == s[j + k]);
                    assert(pre.subrange(j, j + 11) =~= start_mark());
                }
                assert(false);
            } else {
                let o = p - j;
                assert(1 <= o < 11);
                assert(s[j + o] == start_mark()[o]);
                assert(forall|k: int| 1 <= k < 11 ==> start_mark()[k] != '[');
                assert(false);
            }
        }
    }
}

/// No start marker occurs at or after the start of a marker-free
/// suffix.
proof fn lemma_no_start_after(s: Seq<char>, post: Seq<char>, next: int)
    requires
        0 <= next,
        s.len() == next + post.len(),
        forall|k: int| 0 <= k < post.len() ==> #[trigger] s[next + k] == post[k],
        forall|j: int| !occurs_at(post, start_mark(), j),
    ensures
        forall|j: int| j >= next ==> !occurs_at(s, start_mark(), j),
{
    reveal_strlit("[TOOL_CALL]");
    assert forall|j: int| j >= next implies !occurs_at(s, start_mark(), j) by {
        if occurs_at(s, start_mark(), j) {
            assert(forall|k: int|
                0 <= k < 11 ==> #[trigger] s.subrange(j, j + 11)[k] == start_mark()[k]);
            assert(forall|k: int| 0 <= k < 11 ==> #[trigger] s[j + k] == start_mark()[k]);
            assert(occurs_at(post, start_mark(), j - next)) by {
                assert forall|k: int| 0 <= k < 11 implies #[trigger] post[j - next + k] == s[j
                    + k] by {
                    assert(s[next + (j - next + k)] == post[j - next + k]);
                    assert(next + (j - next + k) == j + k);
                }
                assert forall|k: int|
                    0 <= k < 11 implies post.subrange(j - next, j - next + 11)[k]
                    == start_mark()[k] by {
                    assert(post.subrange(j - next, j - next + 11)[k] == post[j - next + k]);
                }
                assert(post.subrange(j - next, j - next + 11) =~= start_mark());
            }
            assert(false);
        }
    }
}

/// Inside the block's body no closing brace is followed by whitespace
/// and the end marker: the body itself is free of the marker, and a
/// window reaching past the body would cover the final brace, which
/// the marker does not contain.
proof fn lemma_no_end_inside(s: Seq<char>, jt: Seq<char>, b0: int)
    requires
        0 <= b0,
        jt.len() >= 1,
        b0 + jt.len() + end_mark().len() <= s.len(),
        forall|k: int| 0 <= k < jt.len() ==> #[trigger] s[b0 + k] == jt[k],
        s[b0 + jt.len() - 1] == '}',
        forall|j: int| !occurs_at(jt, end_mark(), j),
    ensures
        forall|ep: int|
            b0 <= ep < b0 + jt.len() - 1 ==> !(s[ep] == '}' && occurs_at(
                s,
                end_mark(),
                ws_end(s, ep + 1),
            )),
{
    reveal_strlit("[END_TOOL_CALL]");
    let e = b0 + jt.len() - 1;
    assert forall|ep: int| b0 <= ep < e implies !(s[ep] == '}' && occurs_at(
        s,
        end_mark(),
        ws_end(s, ep + 1),
    )) by {
        if s[ep] == '}' {
            lemma_ws_end(s, ep + 1);
            let p2 = ws_end(s, ep + 1);
            if p2 > e {
                assert(crate::text::ws_char(s[e]));
                assert(false);
            }
            if occurs_at(s, end_mark(), p2) {
                assert(forall|k: int|
                    0 <= k < 15 ==> #[trigger] s.subrange(p2, p2 + 15)[k] == end_mark()[k]);
                assert(forall|k: int| 0 <= k < 15 ==> #[trigger] s[p2 + k] == end_mark()[k]);
                if p2 + 15 <= b0 + jt.len() {
                    assert(occurs_at(jt, end_mark(), p2 - b0)) by {
                        assert forall|k: int|
                            0 <= k < 15 implies #[trigger] jt[p2 - b0 + k] == s[p2 + k] by {
                            assert(s[b0 + (p2 - b0 + k)] == jt[p2 - b0 + k]);
                            assert(b0 + (p2 - b0 + k) == p2 + k);
                        }
                        assert forall|k: int|
                            0 <= k < 15 implies jt.subrange(p2 - b0, p2 - b0 + 15)[k]
                            == end_mark()[k] by {
                            assert(jt.subrange(p2 - b0, p2 - b0 + 15)[k] == jt[p2 - b0 + k]);
                        }
                        assert(jt.subrange(p2 - b0, p2 - b0 + 15) =~= end_mark());
                    }
                    assert(false);
                } else {
                    let o = e - p2;
                    assert(0 <= o < 15);
                    assert(s[p2 + o] == end_mark()[o]);
                    assert(forall|k: int| 0 <= k < 15 ==> end_mark()[k] != '}');
                    assert(false);
                }
            }
        }
    }
}

/// One well-formed bracketed-JSON block, with block-free text around
/// it, is detected as exactly one call: the markers around a printed
/// JSON object whose body holds a string `name` and `arguments`, the
/// end marker not occurring inside the body, the start marker occurring
/// neither before nor after the block, and no tagged-XML opening
/// anywhere. This is the one-occurrence case of per-occurrence
/// detection; a block-free text yields nothing (`lemma_detect_none`).
#[verifier::rlimit(100)]
#[verifier::spinoff_prover]
pub proof fn lemma_detect_single_json_block(
    pre: Seq<char>,
    m: Seq<(Seq<char>, crate::json::JVal)>,
    nm: Seq<char>,
    args: crate::json::JVal,
    post: Seq<char>,
)
    requires
        ({
            let jt = crate::json::json_text(crate::json::JVal::Obj(m));
            &&& spec_extract_call(jt) == Some((nm, args))
            &&& (forall|j: int| !occurs_at(jt, end_mark(), j))
            &&& (forall|j: int| !occurs_at(pre, start_mark(), j))
            &&& (forall|j: int| !occurs_at(post, start_mark(), j))
            &&& (forall|j: int|
                !occurs_at(pre + start_mark() + jt + end_mark() + post, xml_open_mark(), j))
        }),
    ensures
        spec_detect(
            pre + start_mark() + crate::json::json_text(crate::json::JVal::Obj(m)) + end_mark()
                + post,
        ) =~= seq![(nm, args)],
{
    let jt = crate::json::json_text(crate::json::JVal::Obj(m));
    let s = pre + start_mark() + jt + end_mark() + post;
    reveal_strlit("[TOOL_CALL]");
    reveal_strlit("[END_TOOL_CALL]");
    assert(start_mark().len() == 11);
    assert(end_mark().len() == 15);
    let p = pre.len() as int;
    let j_len = jt.len() as int;
    assert(jt == seq!['{'] + crate::json::json_text_members(m) + seq!['}']);
    assert(jt[0] == '{');
    assert(jt[j_len - 1] == '}');
    assert(j_len >= 2);
    let b0 = p + 11;
    let e = b0 + j_len - 1;
    let next = e + 16;
    assert(s.len() == next + post.len());

    // Where each piece of the text sits.
    assert(forall|k: int| 0 <= k < p ==> #[trigger] s[k] == pre[k]);
    assert(forall|k: int| 0 <= k < 11 ==> #[trigger] s[p + k] == start_mark()[k]);
    assert(forall|k: int| 0 <= k < j_len ==> #[trigger] s[b0 + k] == jt[k]);
    assert(forall|k: int| 0 <= k < 15 ==> #[trigger] s[e + 1 + k] == end_mark()[k]);
    assert(forall|k: int| 0 <= k < post.len() ==> #[trigger] s[next + k] == post[k]);

    // The XML scan finds nothing.
    crate::text::lemma_spec_find(s, xml_open_mark(), 0);
    if spec_find(s, xml_open_mark(), 0) >= 0 {
        assert(occurs_at(s, xml_open_mark(), spec_find(s, xml_open_mark(), 0)));
        assert(false);
    }
    assert(spec_xml_calls(s, 0) =~= Seq::<(Seq<char>, JVal)>::empty());

    // The bracket scan opens exactly where the block starts: the start
    // marker occurs there, not in the text before it, and it cannot
    // straddle the boundary, since only its first character is `[`.
    assert(s.subrange(p, p + 11) =~= start_mark());
    assert(occurs_at(s, start_mark(), p));
    assert(s[p] == '[');
    lemma_no_start_before(s, pre);
    crate::text::lemma_spec_find(s, start_mark(), 0);
    let found_p = spec_find(s, start_mark(), 0);
    if found_p == -1 {
        assert(!occurs_at(s, start_mark(), p));
        assert(false);
    }
    if found_p < p {
        assert(occurs_at(s, start_mark(), found_p));
        assert(false);
    }
    if found_p > p {
        assert(!occurs_at(s, start_mark(), p));
        assert(false);
    }
    assert(found_p == p);

    // The body starts at once.
    assert(s[b0] == jt[0]);
    assert(ws_end(s, b0) == b0) by {
        assert(!crate::text::ws_char(s[b0]));
    }

    // The block ends at the body's closing brace, followed at once by
    // the end marker.
    assert(s[e] == jt[j_len - 1]);
    assert(s[e] == '}');
    assert(s[e + 1] == end_mark()[0]);
    assert(ws_end(s, e + 1) == e + 1) by {
        assert(!crate::text::ws_char(s[e + 1]));
    }
    assert(s.subrange(e + 1, e + 16) =~= end_mark());
    assert(occurs_at(s, end_mark(), e + 1));
    lemma_no_end_inside(s, jt, b0);
    lemma_find_end_least(s, b0, e);
    assert(spec_find_end(s, b0) == e);

    // The captured body is the printed object.
    assert(s.subrange(b0, e + 1) =~= jt);
    assert(spec_extract_call(s.subrange(b0, e + 1)) == Some((nm, args)));
    assert(ws_end(s, e + 1) + 15 == next);

    // Past the block the scan finds nothing: a further occurrence would
    // lie wholly in the text after it.
    lemma_no_start_after(s, post, next);
    crate::text::lemma_spec_find(s, start_mark(), next);
    assert(spec_json_calls(s, next) =~= Seq::<(Seq<char>, JVal)>::empty()) by {
        if spec_find(s, start_mark(), next) >= next {
            assert(occurs_at(s, start_mark(), spec_find(s, start_mark(), next)));
            assert(false);
        }
    }
    assert(spec_json_calls(s, 0) =~= seq![(nm, args)]);
    assert(spec_detect(s) =~= seq![(nm, args)]);
}

/// `spec_find_end` lands on a position that qualifies when none before
/// it does.
proof fn lemma_find_end_least(s: Seq<char>, e0: int, e: int)
    requires
        0 <= e0 <= e < s.len(),
        s[e] == '}',
        occurs_at(s, end_mark(), ws_end(s, e + 1)),
        forall|ep: int|
            e0 <= ep < e ==> !(s[ep] == '}' && occurs_at(s, end_mark(), ws_end(s, ep + 1))),
    ensures
        spec_find_end(s, e0) == e,
    decreases e - e0,
{
    if e0 < e {
        lemma_find_end_least(s, e0 + 1, e);
    }
}

} // verus!
