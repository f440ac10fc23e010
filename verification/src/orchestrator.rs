//! Per-turn orchestration decisions: which detected tool calls may
//! execute in a round, how repeats are blocked, and when the round loop
//! must stop.
//!
//! Round 0 allows any tool; every later round restricts execution to the
//! designated write tool. A tool name executes at most once per turn.
//! Any blocked call ends the turn at once, a round with nothing executed
//! ends it as the final answer, and three rounds end it with a limit
//! notice.

use vstd::prelude::*;
use crate::detect::ToolCall;
use crate::json::{
    json_text_pretty, json_write_pretty, jval_of, spec_obj_get, JVal, JsonValue,
};
use crate::session::ToolResult;

verus! {

/// Which tools may execute in the current round.
#[derive(Clone, Copy, Debug)]
pub enum ToolCallAllowance {
    All,
    WriteOnly,
}

/// Whether the allowance lets a tool of this name execute.
pub open spec fn spec_allowed(allowance: ToolCallAllowance, name: Seq<char>) -> bool {
    match allowance {
        ToolCallAllowance::All => true,
        ToolCallAllowance::WriteOnly => name == "write_file"@,
    }
}

/// The names of a list of calls.
pub open spec fn names_of(calls: Seq<(Seq<char>, JVal)>) -> Seq<Seq<char>>
    decreases calls.len(),
{
    if calls.len() == 0 {
        Seq::empty()
    } else {
        seq![calls[0].0] + names_of(calls.drop_first())
    }
}

/// What one round does with the detected calls, given the names already
/// executed this turn: the calls that execute in order, the names seen
/// afterwards, and whether any call was blocked (as disallowed or as a
/// repeat).
pub open spec fn spec_plan(
    calls: Seq<(Seq<char>, JVal)>,
    seen: Seq<Seq<char>>,
    allowance: ToolCallAllowance,
) -> (Seq<(Seq<char>, JVal)>, Seq<Seq<char>>, bool)
    decreases calls.len(),
{
    if calls.len() == 0 {
        (Seq::empty(), seen, false)
    } else {
        let c = calls[0];
        if !spec_allowed(allowance, c.0) {
            let r = spec_plan(calls.drop_first(), seen, allowance);
            (r.0, r.1, true)
        } else if seen.contains(c.0) {
            let r = spec_plan(calls.drop_first(), seen, allowance);
            (r.0, r.1, true)
        } else {
            let r = spec_plan(calls.drop_first(), seen.push(c.0), allowance);
            (seq![c] + r.0, r.1, r.2)
        }
    }
}

/// A string is in the list.
fn contains_string(v: &Vec<String>, s: &str) -> (r: bool)
    ensures
        r == v.deep_view().contains(s@),
{
    let n = v.len();
    let mut i: usize = 0;
    while i < n
        invariant
            0 <= i <= n,
            n == v@.len(),
            forall|k: int| 0 <= k < i ==> v.deep_view()[k] != s@,
        decreases n - i,
    {
        if v[i].as_str().eq(s) {
            assert(v.deep_view()[i as int] == s@);
            return true;
        }
        i = i + 1;
    }
    proof {
        if v.deep_view().contains(s@) {
            let k = choose|k: int| 0 <= k < v.deep_view().len() && v.deep_view()[k] == s@;
            assert(false);
        }
    }
    false
}

/// A copy of a tool call, with the same model.
pub fn clone_call(c: &ToolCall) -> (r: ToolCall)
    ensures
        r.deep_view() == c.deep_view(),
{
    ToolCall { name: c.name.clone(), arguments: crate::detect::clone_json(&c.arguments) }
}

/// Decide which of the detected calls execute this round. A call that
/// the allowance refuses, or whose name already executed this turn, is
/// blocked and skipped; every other call executes and its name is
/// recorded in `seen`.
pub fn plan_tool_calls(
    calls: &Vec<ToolCall>,
    seen: &mut Vec<String>,
    allowance: ToolCallAllowance,
) -> (r: (Vec<ToolCall>, bool))
    ensures
        ({
            let p = spec_plan(calls.deep_view(), old(seen).deep_view(), allowance);
            r.0.deep_view() == p.0 && final(seen).deep_view() == p.1 && r.1 == p.2
        }),
{
    let ghost seen0 = seen.deep_view();
    let ghost cd = calls.deep_view();
    let n = calls.len();
    let mut out: Vec<ToolCall> = Vec::new();
    let mut blocked: bool = false;
    let mut i: usize = 0;
    proof {
        assert(cd.skip(0) =~= cd);
    }
    while i < n
        invariant
            0 <= i <= n,
            n == calls@.len(),
            cd == calls.deep_view(),
            cd.len() == n,
            ({
                let full = spec_plan(cd, seen0, allowance);
                let rest = spec_plan(cd.skip(i as int), seen.deep_view(), allowance);
                full.0 == out.deep_view() + rest.0 && full.1 == rest.1 && full.2 == (blocked
                    || rest.2)
            }),
        decreases n - i,
    {
        let ghost rest_pre = spec_plan(cd.skip(i as int), seen.deep_view(), allowance);
        proof {
            assert(cd.skip(i as int)[0] == cd[i as int]);
            assert(cd.skip(i as int).drop_first() =~= cd.skip(i as int + 1));
        }
        let name_ok = match allowance {
            ToolCallAllowance::All => true,
            ToolCallAllowance::WriteOnly => calls[i].name.as_str().eq("write_file"),
        };
        if !name_ok {
            blocked = true;
        } else if contains_string(seen, calls[i].name.as_str()) {
            blocked = true;
        } else {
            let ghost seen_pre = seen.deep_view();
            seen.push(calls[i].name.clone());
            proof {
                assert(seen.deep_view() =~= seen_pre.push(cd[i as int].0));
            }
            let ghost out_pre = out.deep_view();
            out.push(clone_call(&calls[i]));
            proof {
                assert(out.deep_view() =~= out_pre.push(cd[i as int]));
                let rest_post = spec_plan(cd.skip(i as int + 1), seen.deep_view(), allowance);
                assert(out_pre + (seq![cd[i as int]] + rest_post.0) =~= out.deep_view()
                    + rest_post.0);
            }
        }
        i = i + 1;
    }
    proof {
        assert(cd.skip(n as int) =~= Seq::<(Seq<char>, JVal)>::empty());
        let rest = spec_plan(cd.skip(n as int), seen.deep_view(), allowance);
        assert(rest.0 =~= Seq::<(Seq<char>, JVal)>::empty());
        assert(out.deep_view() + rest.0 =~= out.deep_view());
    }
    (out, blocked)
}

/// In one round, the executed calls carry distinct names, none already
/// seen; afterwards the seen names are exactly the old ones followed by
/// the executed names, in order.
pub proof fn lemma_plan_no_duplicates(
    calls: Seq<(Seq<char>, JVal)>,
    seen: Seq<Seq<char>>,
    allowance: ToolCallAllowance,
)
    ensures
        ({
            let p = spec_plan(calls, seen, allowance);
            &&& (forall|x: int, y: int|
                0 <= x < y < p.0.len() ==> p.0[x].0 != p.0[y].0)
            &&& (forall|x: int| 0 <= x < p.0.len() ==> !seen.contains(#[trigger] p.0[x].0))
            &&& p.1 == seen + names_of(p.0)
        }),
    decreases calls.len(),
{
    let p = spec_plan(calls, seen, allowance);
    if calls.len() == 0 {
        assert(names_of(p.0) =~= Seq::<Seq<char>>::empty());
        assert(seen + names_of(p.0) =~= seen);
    } else {
        let c = calls[0];
        if !spec_allowed(allowance, c.0) || seen.contains(c.0) {
            lemma_plan_no_duplicates(calls.drop_first(), seen, allowance);
        } else {
            lemma_plan_no_duplicates(calls.drop_first(), seen.push(c.0), allowance);
            let r = spec_plan(calls.drop_first(), seen.push(c.0), allowance);
            assert(p.0 =~= seq![c] + r.0);
            assert(names_of(p.0) =~= seq![c.0] + names_of(r.0)) by {
                assert(p.0[0] == c);
                assert(p.0.drop_first() =~= r.0);
            }
            assert(p.1 =~= seen + names_of(p.0)) by {
                assert(r.1 == seen.push(c.0) + names_of(r.0));
                assert(seen.push(c.0) + names_of(r.0) =~= seen + (seq![c.0] + names_of(r.0)));
            }
            // Executed names of the rest avoid both the old seen names
            // and the head's name.
            assert forall|x: int| 0 <= x < p.0.len() implies !seen.contains(#[trigger] p.0[x].0) by {
                if x > 0 {
                    assert(p.0[x] == r.0[x - 1]);
                    if seen.contains(p.0[x].0) {
                        let k = choose|k: int|
                            0 <= k < seen.len() && seen[k] == p.0[x].0;
                        assert(seen.push(c.0)[k] == p.0[x].0);
                        assert(seen.push(c.0).contains(p.0[x].0));
                    }
                }
            }
            assert forall|x: int, y: int|
                0 <= x < y < p.0.len() implies p.0[x].0 != p.0[y].0 by {
                if x == 0 {
                    assert(p.0[y] == r.0[y - 1]);
                    if p.0[y].0 == c.0 {
                        assert(seen.push(c.0)[seen.len() as int] == c.0);
                        assert(seen.push(c.0).contains(p.0[y].0));
                    }
                } else {
                    assert(p.0[x] == r.0[x - 1]);
                    assert(p.0[y] == r.0[y - 1]);
                }
            }
        }
    }
}

/// Within one turn the orchestrator never executes two calls with the
/// same tool name: what a later round executes avoids, by name,
/// everything an earlier round executed, even when the model emits the
/// same call twice.
pub proof fn lemma_no_repeat_across_rounds(
    calls1: Seq<(Seq<char>, JVal)>,
    calls2: Seq<(Seq<char>, JVal)>,
    seen0: Seq<Seq<char>>,
    a1: ToolCallAllowance,
    a2: ToolCallAllowance,
)
    ensures
        ({
            let p1 = spec_plan(calls1, seen0, a1);
            let p2 = spec_plan(calls2, p1.1, a2);
            forall|x: int, y: int|
                0 <= x < p1.0.len() && 0 <= y < p2.0.len() ==> #[trigger] p1.0[x].0
                    != #[trigger] p2.0[y].0
        }),
{
    let p1 = spec_plan(calls1, seen0, a1);
    let p2 = spec_plan(calls2, p1.1, a2);
    lemma_plan_no_duplicates(calls1, seen0, a1);
    lemma_plan_no_duplicates(calls2, p1.1, a2);
    assert forall|x: int, y: int|
        0 <= x < p1.0.len() && 0 <= y < p2.0.len() implies #[trigger] p1.0[x].0
        != #[trigger] p2.0[y].0 by {
        lemma_names_of_index(p1.0, x);
        assert(p1.1.contains(p1.0[x].0)) by {
            assert(p1.1[seen0.len() + x] == names_of(p1.0)[x]);
        }
    }
}

proof fn lemma_names_of_index(calls: Seq<(Seq<char>, JVal)>, i: int)
    requires
        0 <= i < calls.len(),
    ensures
        names_of(calls).len() == calls.len(),
        names_of(calls)[i] == calls[i].0,
    decreases calls.len(),
{
    lemma_names_of_len(calls);
    if i > 0 {
        lemma_names_of_index(calls.drop_first(), i - 1);
    }
}

proof fn lemma_names_of_len(calls: Seq<(Seq<char>, JVal)>)
    ensures
        names_of(calls).len() == calls.len(),
    decreases calls.len(),
{
    if calls.len() > 0 {
        lemma_names_of_len(calls.drop_first());
    }
}

/// How a turn proceeds after one round.
#[derive(Clone, Copy, Debug, PartialEq, Eq, Structural)]
pub enum TurnVerdict {
    /// Rebuild the prompt with the results and run the model again.
    Continue,
    /// A blocked (disallowed or repeated) call ended the turn.
    BlockedRepeat,
    /// Nothing executed: the final answer is reached.
    NoCalls,
    /// The round cap was hit; the turn ends with a limit notice.
    LimitReached,
}

/// What the loop decides after a round, and the round counter afterwards.
pub open spec fn spec_next_round(rounds: int, executed: int, blocked: bool) -> (TurnVerdict, int) {
    if blocked {
        (TurnVerdict::BlockedRepeat, rounds)
    } else if executed == 0 {
        (TurnVerdict::NoCalls, rounds)
    } else if rounds + 1 >= 3 {
        (TurnVerdict::LimitReached, rounds + 1)
    } else {
        (TurnVerdict::Continue, rounds + 1)
    }
}

/// Decide whether the turn goes on after a round that executed
/// `executed` calls. A blocked call or an empty round ends the turn;
/// otherwise the round counter advances and the third round ends the
/// turn with the limit notice.
pub fn next_round(executed: usize, blocked: bool, rounds: &mut usize) -> (v: TurnVerdict)
    requires
        *old(rounds) < 3,
    ensures
        (v, *final(rounds) as int) == spec_next_round(
            *old(rounds) as int,
            executed as int,
            blocked,
        ),
        v == TurnVerdict::Continue ==> *final(rounds) < 3,
{
    if blocked {
        TurnVerdict::BlockedRepeat
    } else if executed == 0 {
        TurnVerdict::NoCalls
    } else {
        *rounds = *rounds + 1;
        if *rounds >= 3 {
            TurnVerdict::LimitReached
        } else {
            TurnVerdict::Continue
        }
    }
}

/// A model that re-emits a tool call every round is stopped within three
/// rounds: with at least one call executing each time, the first two
/// rounds continue and the third ends the turn with the limit notice.
pub proof fn lemma_round_cap(e1: int, e2: int, e3: int)
    requires
        e1 >= 1,
        e2 >= 1,
        e3 >= 1,
    ensures
        ({
            let s1 = spec_next_round(0, e1, false);
            let s2 = spec_next_round(s1.1, e2, false);
            let s3 = spec_next_round(s2.1, e3, false);
            s1.0 == TurnVerdict::Continue && s2.0 == TurnVerdict::Continue && s3.0
                == TurnVerdict::LimitReached
        }),
{
}

/// Where a call is dispatched.
#[derive(Clone, Copy, Debug, PartialEq, Eq, Structural)]
pub enum Dispatch {
    /// The reserved local file-read tool.
    LocalRead,
    /// The reserved local file-write tool.
    LocalWrite,
    /// Any other name goes to the registry.
    Registry,
}

/// Route a call by name: the reserved names `read_file` and `write_file`
/// are handled locally, before the registry is consulted, whatever tools
/// a server advertises; every other name goes to the registry.
pub fn dispatch_for(name: &str) -> (r: Dispatch)
    ensures
        name@ == "read_file"@ ==> r == Dispatch::LocalRead,
        name@ == "write_file"@ ==> r == Dispatch::LocalWrite,
        name@ != "read_file"@ && name@ != "write_file"@ ==> r == Dispatch::Registry,
{
    proof {
        reveal_strlit("read_file");
        reveal_strlit("write_file");
        assert("read_file"@.len() == 9);
        assert("write_file"@.len() == 10);
        assert("read_file"@ != "write_file"@);
    }
    if name.eq("read_file") {
        Dispatch::LocalRead
    } else if name.eq("write_file") {
        Dispatch::LocalWrite
    } else {
        Dispatch::Registry
    }
}



/// Pick the round's allowance: the first round admits any tool, every
/// later one only the designated write tool.
pub fn allowance_for_round(rounds: usize) -> (r: ToolCallAllowance)
    ensures
        r == (if rounds == 0 {
            ToolCallAllowance::All
        } else {
            ToolCallAllowance::WriteOnly
        }),
{
    if rounds == 0 {
        ToolCallAllowance::All
    } else {
        ToolCallAllowance::WriteOnly
    }
}

/// The payload of a failed tool call: the pretty text of an object with
/// one `error` member.
pub open spec fn spec_error_payload(message: Seq<char>) -> Seq<char> {
    json_text_pretty(JVal::Obj(seq![("error"@, JVal::Str(message))]), Seq::empty())
}

/// A failed call's result: named after the tool, unsuccessful, carrying
/// the `error` payload.
pub fn failure_result(name: &str, message: &str) -> (r: ToolResult)
    ensures
        r.name@ == name@,
        !r.success,
        r.output@ == spec_error_payload(message@),
{
    let mut members: Vec<(String, JsonValue)> = Vec::new();
    members.push(("error".to_owned(), JsonValue::Str(message.to_owned())));
    let payload = JsonValue::Obj(members);
    proof {
        crate::json::lemma_members_view(payload->Obj_0@);
        assert(crate::json::members_view(payload->Obj_0@) =~= seq![
            ("error"@, JVal::Str(message@)),
        ]);
    }
    let output = json_write_pretty(&payload);
    ToolResult { name: name.to_owned(), success: false, output }
}

/// The string member of an object value, when there is one.
pub open spec fn spec_string_member(v: JVal, key: Seq<char>) -> Option<Seq<char>> {
    match v {
        JVal::Obj(m) => match spec_obj_get(m, key) {
            Some(mv) => match mv {
                JVal::Str(s) => Some(s),
                _ => None,
            },
            _ => None,
        },
        _ => None,
    }
}

/// Decide a local `write_file` call: in tool-only mode it is refused;
/// otherwise the call runs exactly when the arguments carry string
/// `path` and `content` members, which are handed back for the write.
/// A refusal names what was missing.
pub fn plan_write_call(arguments: &JsonValue, tool_only: bool) -> (r: Result<
    (String, String),
    ToolResult,
>)
    ensures
        tool_only ==> r is Err,
        !tool_only && spec_string_member(jval_of(*arguments), "path"@) is Some
            && spec_string_member(jval_of(*arguments), "content"@) is Some ==> r is Ok,
        r matches Ok(pc) ==> !tool_only && spec_string_member(jval_of(*arguments), "path"@)
            == Some(pc.0@) && spec_string_member(jval_of(*arguments), "content"@) == Some(pc.1@),
        r matches Err(t) ==> !t.success && t.name@ == "write_file"@ && t.output@ == (if tool_only {
            spec_error_payload("Local writes are disabled in tool-only mode"@)
        } else if spec_string_member(jval_of(*arguments), "path"@) is None {
            spec_error_payload("Missing required argument: path"@)
        } else {
            spec_error_payload("Missing required argument: content"@)
        }),
{
    if tool_only {
        return Err(failure_result("write_file", "Local writes are disabled in tool-only mode"));
    }
    let path = match arguments.get("path") {
        Some(pv) => match pv.as_str() {
            Some(s) => s.clone(),
            None => {
                return Err(failure_result("write_file", "Missing required argument: path"));
            },
        },
        None => {
            return Err(failure_result("write_file", "Missing required argument: path"));
        },
    };
    let content = match arguments.get("content") {
        Some(cv) => match cv.as_str() {
            Some(s) => s.clone(),
            None => {
                return Err(failure_result("write_file", "Missing required argument: content"));
            },
        },
        None => {
            return Err(failure_result("write_file", "Missing required argument: content"));
        },
    };
    Ok((path, content))
}

} // verus!
